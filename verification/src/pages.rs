use vstd::prelude::*;
use crate::dict::Dict;
use crate::escape::{encode_text, html_text_escape, law_plain_text_unchanged};
use crate::key::Key;
use crate::markdown::{markdown_html, push_markdown_html};
use crate::text::{law_replace_absent, law_replace_whole, occurrence, replace, replace_all};

verus! {

/// The placeholder that a page template holds for the page's content.
pub open spec fn content_slot() -> Seq<char> {
    seq!['{', '}']
}

/// The placeholder for the path that the request named.
pub open spec fn path_slot() -> Seq<char> {
    seq!['{', 'p', 'a', 't', 'h', '}']
}

/// The placeholder for the key of the shared text.
pub open spec fn id_slot() -> Seq<char> {
    seq!['{', 'i', 'd', '}']
}

/// The placeholder for a directory page's title.
pub open spec fn title_slot() -> Seq<char> {
    seq!['{', 't', 'i', 't', 'l', 'e', '}']
}

/// An HTTP answer: its status code and, for status 200, an HTML body.
pub struct Page {
    pub status: u16,
    pub body: String,
}

/// Body of the page that shows a shared text for copying: the path, then
/// the escaped text, filled into the template.
pub open spec fn copy_body(template: Seq<char>, path: Seq<char>, text: Seq<char>) -> Seq<char> {
    replace_all(replace_all(template, path_slot(), path), content_slot(), html_text_escape(text))
}

/// Body of the page that shows rendered Markdown: the key, the path and
/// the rendered HTML, filled into the template in this order.
pub open spec fn render_body(template: Seq<char>, id: Seq<char>, path: Seq<char>, html: Seq<char>) -> Seq<char> {
    replace_all(replace_all(replace_all(template, id_slot(), id), path_slot(), path), content_slot(), html)
}

/// Body of a directory page: the title, then the list, filled into the
/// template.
pub open spec fn index_body(template: Seq<char>, title: Seq<char>, list: Seq<char>) -> Seq<char> {
    replace_all(replace_all(template, title_slot(), title), content_slot(), list)
}

fn replace_content(s: &str, by: &str) -> (r: String)
    ensures
        r@ == replace_all(s@, content_slot(), by@),
{
    let pat = "{}";
    proof {
        reveal_strlit("{}");
        assert(pat@ =~= content_slot());
    }
    replace(s, pat, by)
}

fn replace_path(s: &str, by: &str) -> (r: String)
    ensures
        r@ == replace_all(s@, path_slot(), by@),
{
    let pat = "{path}";
    proof {
        reveal_strlit("{path}");
        assert(pat@ =~= path_slot());
    }
    replace(s, pat, by)
}

fn replace_id(s: &str, by: &str) -> (r: String)
    ensures
        r@ == replace_all(s@, id_slot(), by@),
{
    let pat = "{id}";
    proof {
        reveal_strlit("{id}");
        assert(pat@ =~= id_slot());
    }
    replace(s, pat, by)
}

fn replace_title(s: &str, by: &str) -> (r: String)
    ensures
        r@ == replace_all(s@, title_slot(), by@),
{
    let pat = "{title}";
    proof {
        reveal_strlit("{title}");
        assert(pat@ =~= title_slot());
    }
    replace(s, pat, by)
}

/// The answer to a request for the copy page of a shared text: 200 with
/// the filled template when the text was found, 404 with an empty body
/// when it was not.
pub fn copy_page(template: &str, path: &str, content: Option<String>) -> (p: Page)
    ensures
        match content {
            Some(text) => p.status == 200 && p.body@ == copy_body(template@, path@, text@),
            None => p.status == 404 && p.body@ == Seq::<char>::empty(),
        },
{
    match content {
        Some(text) => {
            let with_path = replace_path(template, path);
            let escaped = encode_text(text.as_str());
            Page { status: 200, body: replace_content(with_path.as_str(), escaped.as_str()) }
        },
        None => Page { status: 404, body: String::new() },
    }
}

/// The rendered-Markdown template filled with a key, a path and HTML.
pub fn fill_render_template(template: &str, id: &str, path: &str, html: &str) -> (body: String)
    ensures
        body@ == render_body(template@, id@, path@, html@),
{
    let with_id = replace_id(template, id);
    let with_path = replace_path(with_id.as_str(), path);
    replace_content(with_path.as_str(), html)
}

/// The answer to a request for the rendered page of key `id`: when the
/// store holds a text under that key, 200 with the template filled with the
/// key, the path and the text rendered from Markdown; otherwise 404 with an
/// empty body.
pub fn render_page(dict: &Dict, template: &str, id: &str, path: &str) -> (p: Page)
    ensures
        dict@.contains_key(id@) ==> p.status == 200 && p.body@ == render_body(
            template@,
            id@,
            path@,
            markdown_html(dict@[id@]),
        ),
        !dict@.contains_key(id@) ==> p.status == 404 && p.body@ == Seq::<char>::empty(),
{
    let k = Key::from(id);
    match dict.get(&k) {
        Some(text) => {
            let html = push_markdown_html(text.as_str());
            let key_text = k.to_string();
            Page { status: 200, body: fill_render_template(template, key_text.as_str(), path, html.as_str()) }
        },
        None => Page { status: 404, body: String::new() },
    }
}

/// The body of a directory page with the given title and list.
pub fn index_page(template: &str, title: &str, list: &str) -> (body: String)
    ensures
        body@ == index_body(template@, title@, list@),
{
    let with_title = replace_title(template, title);
    replace_content(with_title.as_str(), list)
}

/// The shared text reaches the copy page changed by HTML escaping alone: in
/// a template without `{path}`, each `{}` becomes the escaped text; in the
/// template `{}` the body is the escaped text, and a text without `&`, `<`
/// and `>` appears exactly as it was shared.
pub proof fn law_copy_text_only_escaped(template: Seq<char>, path: Seq<char>, text: Seq<char>)
    ensures
        (forall|i: int| !#[trigger] occurrence(template, path_slot(), i)) ==> copy_body(template, path, text)
            == replace_all(template, content_slot(), html_text_escape(text)),
        copy_body(content_slot(), path, text) == html_text_escape(text),
        (forall|i: int| 0 <= i < text.len() ==> text[i] != '&' && text[i] != '<' && text[i] != '>')
            ==> copy_body(content_slot(), path, text) == text,
{
    if forall|i: int| !#[trigger] occurrence(template, path_slot(), i) {
        law_replace_absent(template, path_slot(), path);
    }
    assert(replace_all(content_slot(), path_slot(), path) == content_slot());
    law_replace_whole(content_slot(), html_text_escape(text));
    if forall|i: int| 0 <= i < text.len() ==> text[i] != '&' && text[i] != '<' && text[i] != '>' {
        law_plain_text_unchanged(text);
    }
}

/// The requested path goes into the render page as it is: in a template
/// without `{id}`, each `{path}` becomes the path, and when that leaves no
/// `{}` the body is just that; in the template `{path}` the body is the path
/// itself (unless the path holds a `{}`).
pub proof fn law_render_path_verbatim(template: Seq<char>, id: Seq<char>, path: Seq<char>, html: Seq<char>)
    ensures
        (forall|i: int| !#[trigger] occurrence(template, id_slot(), i))
            && (forall|i: int| !#[trigger] occurrence(replace_all(template, path_slot(), path), content_slot(), i))
            ==> render_body(template, id, path, html) == replace_all(template, path_slot(), path),
        (forall|i: int| !#[trigger] occurrence(path, content_slot(), i)) ==> render_body(path_slot(), id, path, html)
            == path,
{
    if forall|i: int| !#[trigger] occurrence(template, id_slot(), i) {
        law_replace_absent(template, id_slot(), id);
        if forall|i: int| !#[trigger] occurrence(replace_all(template, path_slot(), path), content_slot(), i) {
            law_replace_absent(replace_all(template, path_slot(), path), content_slot(), html);
        }
    }
    assert forall|i: int| !#[trigger] occurrence(path_slot(), id_slot(), i) by {
        if 0 <= i && i + 4 <= 6 {
            assert(path_slot().subrange(i, i + 4)[1] == path_slot()[i + 1]);
            assert(id_slot()[1] == 'i');
            assert(path_slot().subrange(i, i + 4)[1] != id_slot()[1]);
        }
    }
    law_replace_absent(path_slot(), id_slot(), id);
    law_replace_whole(path_slot(), path);
    if forall|i: int| !#[trigger] occurrence(path, content_slot(), i) {
        law_replace_absent(path, content_slot(), html);
    }
}

} // verus!
