# instant_karma

Share a text or a directory over a small local web server. A text read from
a file or standard input is stored under a fresh random key and served as a
page for copying or as rendered Markdown; a directory is served with an
index page for each of its directories; a rendered file can be watched so
that its page reloads when it changes.

`src/` is the verified library (Verus):

- `config`: the configuration and its defaults.
- `key`: share keys (random UUID text).
- `assoc`, `dict`: the in-memory store of shared texts, a map from key to text.
- `load`: storing what was read from the input.
- `text`, `order`, `paths`: string replacement, decimal notation, text order,
  and the path operations the pages need (`file_name`, `parent`, `push`).
- `escape`, `markdown`: HTML escaping and Markdown rendering (by the
  `html-escape` and `pulldown-cmark` crates).
- `pages`: the copy, render and directory-index pages filled from templates.
- `entry`: the directory tree, its ordered entry sets, list HTML and routes.
- `watch`: per-path change flags, each change reported once.
- `statics`: configuration file path, listening address and printed links.

`app/` is the program around it: command line, files and standard input,
the SQLite store, the HTTP server, the file watcher and the templates.
