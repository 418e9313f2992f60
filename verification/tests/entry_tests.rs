use instant_karma::entry::{create_list_string, index_dirs, Entry, EntrySet};
use instant_karma::key::Key;

fn file(p: &str) -> Entry {
    Entry::File { path: p.to_string() }
}

fn dir(p: &str, children: Vec<Entry>) -> Entry {
    let mut set = EntrySet::new();
    for c in children {
        set.insert(c);
    }
    Entry::Dir { path: p.to_string(), children: set }
}

fn paths(s: &EntrySet) -> Vec<String> {
    (0..s.len()).map(|i| s.get(i).pathstr()).collect()
}

#[test]
fn set_orders_directories_first_then_by_path() {
    let mut s = EntrySet::new();
    assert!(s.insert(file("b.md")));
    assert!(s.insert(dir("z", vec![])));
    assert!(s.insert(file("a.md")));
    assert!(s.insert(dir("c", vec![])));
    assert_eq!(paths(&s), vec!["c/", "z/", "a.md", "b.md"]);
}

#[test]
fn set_holds_an_entry_once() {
    let mut s = EntrySet::new();
    assert!(s.insert(file("a.md")));
    assert!(!s.insert(file("a.md")));
    assert!(s.insert(dir("a.md", vec![])));
    assert_eq!(s.len(), 2);
}

#[test]
fn names_and_pathstrs() {
    let d = dir("docs/sub", vec![]);
    let f = file("docs/sub/x.md");
    assert_eq!(d.name(), "sub/");
    assert_eq!(d.pathstr(), "docs/sub/");
    assert_eq!(d.to_string(), "docs/sub");
    assert_eq!(f.name(), "x.md");
    assert_eq!(f.pathstr(), "docs/sub/x.md");
    assert_eq!(f.path(), "docs/sub/x.md");
}

#[test]
fn list_of_the_root_has_no_parent_link() {
    let root = dir("", vec![file("b.md"), dir("sub", vec![])]);
    match &root {
        Entry::Dir { path, children } => {
            assert_eq!(
                create_list_string(path, children),
                "<li><a href=sub/>sub/</a></li>\n<li><a href=b.md>b.md</a></li>"
            );
        }
        _ => unreachable!(),
    }
}

#[test]
fn list_of_a_subdirectory_starts_with_a_parent_link() {
    let sub = dir("sub", vec![file("sub/x.md")]);
    match &sub {
        Entry::Dir { path, children } => {
            assert_eq!(
                create_list_string(path, children),
                "<li><a href=../>..</a></li>\n<li><a href=x.md>x.md</a></li>"
            );
        }
        _ => unreachable!(),
    }
}

#[test]
fn empty_root_list_is_empty() {
    let root = dir("", vec![]);
    match &root {
        Entry::Dir { path, children } => assert_eq!(create_list_string(path, children), ""),
        _ => unreachable!(),
    }
}

#[test]
fn index_dirs_lists_each_directory_once_in_preorder() {
    let tree = dir(
        "",
        vec![file("top.md"), dir("a", vec![dir("a/b", vec![file("a/b/c.md")])]), dir("d", vec![])],
    );
    assert!(tree.names_ok());
    let routes = index_dirs(&Key::from("K"), &tree);
    let got: Vec<(&str, &str)> = routes.iter().map(|(r, l)| (r.as_str(), l.as_str())).collect();
    assert_eq!(
        got,
        vec![
            ("/K/", "<li><a href=a/>a/</a></li>\n<li><a href=d/>d/</a></li>\n<li><a href=top.md>top.md</a></li>"),
            ("/K/a/", "<li><a href=../>..</a></li>\n<li><a href=b/>b/</a></li>"),
            ("/K/a/b/", "<li><a href=../>..</a></li>\n<li><a href=c.md>c.md</a></li>"),
            ("/K/d/", "<li><a href=../>..</a></li>"),
        ]
    );
}

#[test]
fn names_ok_fails_for_an_unnamed_entry() {
    let tree = dir("", vec![file("..")]);
    assert!(!tree.names_ok());
    assert!(file("..").names_ok());
}

#[test]
fn set_orders_paths_by_component() {
    let mut s = EntrySet::new();
    assert!(s.insert(file("a-b")));
    assert!(s.insert(file("a/b")));
    assert_eq!(paths(&s), vec!["a/b", "a-b"]);
}

#[test]
fn paths_equal_by_component_are_one_entry() {
    let mut s = EntrySet::new();
    assert!(s.insert(file("a/b")));
    assert!(!s.insert(file("a//b")));
    assert_eq!(s.len(), 1);
}

#[test]
fn directories_with_the_same_path_and_different_entries_are_both_kept() {
    let mut s = EntrySet::new();
    assert!(s.insert(dir("d", vec![file("d/x")])));
    assert!(s.insert(dir("d", vec![])));
    assert!(!s.insert(dir("d", vec![])));
    assert_eq!(s.len(), 2);
    assert_eq!(s.get(0).names_ok(), true);
    match s.get(0) {
        Entry::Dir { children, .. } => assert_eq!(children.len(), 0),
        _ => unreachable!(),
    }
}

#[test]
fn rooted_dot_directory_list_has_no_parent_link() {
    let d = dir("/.", vec![file("x")]);
    match &d {
        Entry::Dir { path, children } => {
            assert_eq!(create_list_string(path, children), "<li><a href=x>x</a></li>");
        }
        _ => unreachable!(),
    }
}

/// The same tree with the standard library's derived order.
#[derive(PartialEq, Eq, PartialOrd, Ord, Debug)]
enum StdEntry {
    Dir { path: std::path::PathBuf, children: std::collections::BTreeSet<StdEntry> },
    File { path: std::path::PathBuf },
}

fn std_tree(e: &Entry) -> StdEntry {
    match e {
        Entry::File { path } => StdEntry::File { path: path.into() },
        Entry::Dir { path, children } => StdEntry::Dir {
            path: path.into(),
            children: (0..children.len()).map(|i| std_tree(children.get(i))).collect(),
        },
    }
}

fn describe(e: &StdEntry) -> String {
    match e {
        StdEntry::File { path } => format!("F{}", path.display()),
        StdEntry::Dir { path, children } => {
            format!("D{}[{}]", path.display(), children.iter().map(describe).collect::<Vec<_>>().join(","))
        }
    }
}

#[test]
fn set_order_matches_the_derived_order() {
    let make = || {
        vec![
            file("b"), file("a-b"), file("a/b"), dir("a", vec![file("a/z"), file("a/y")]), dir("a", vec![file("a/y")]),
            dir("a", vec![]), dir("c", vec![dir("c/d", vec![])]), file("./q"), file(".."), dir("/x", vec![]),
            file("a//b"), dir("-", vec![]),
        ]
    };
    let mut ours = EntrySet::new();
    let mut theirs = std::collections::BTreeSet::new();
    for (e, f) in make().into_iter().zip(make()) {
        let t = std_tree(&f);
        assert_eq!(ours.insert(e), theirs.insert(t));
    }
    let ours_described: Vec<String> = (0..ours.len()).map(|i| describe(&std_tree(ours.get(i)))).collect();
    let theirs_described: Vec<String> = theirs.iter().map(describe).collect();
    assert_eq!(ours_described, theirs_described);
}
