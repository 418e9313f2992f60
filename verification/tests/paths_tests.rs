use instant_karma::paths::{path_compare, path_components, path_file_name, path_has_parent, path_join};
use std::path::{Path, PathBuf};

const CASES: [&str; 18] = [
    "", "a", "a/b", "a/b/", "/", "//", ".", "..", "a/..", "a/.", "./a", "a//b", "/a", "foo.txt/.//",
    "a/./", "./", "x/y/z.md", "dir with space/f",
];

#[test]
fn file_name_matches_path_file_name() {
    for p in CASES {
        let expected = Path::new(p).file_name().map(|n| n.to_str().unwrap().to_string());
        assert_eq!(path_file_name(p), expected, "file_name of {:?}", p);
    }
}

#[test]
fn has_parent_matches_path_parent() {
    for p in CASES {
        assert_eq!(path_has_parent(p), Path::new(p).parent().is_some(), "parent of {:?}", p);
    }
}

#[test]
fn join_matches_pathbuf_push() {
    for p in CASES {
        let mut expected = PathBuf::from(p);
        expected.push("c");
        assert_eq!(path_join(p, "c"), expected.to_str().unwrap(), "push onto {:?}", p);
    }
}

const ORDER_CASES: [&str; 20] = [
    "", "a", "a/b", "a-b", "a/b/", "a//b", "/", "/a", ".", "./a", "..", "../a", "a/..", "-", ".a", "a.b",
    "/.", "a/./b", "b", "a/b/c",
];

#[test]
fn path_order_matches_path_ord() {
    for p in ORDER_CASES {
        for q in ORDER_CASES {
            let expected = match Path::new(p).cmp(Path::new(q)) {
                std::cmp::Ordering::Less => -1,
                std::cmp::Ordering::Equal => 0,
                std::cmp::Ordering::Greater => 1,
            };
            assert_eq!(path_compare(p, q), expected, "{:?} vs {:?}", p, q);
        }
    }
}

#[test]
fn components_of_a_rooted_dot_path() {
    assert_eq!(path_components("/."), vec![(0u8, Vec::<char>::new())]);
    assert!(!path_has_parent("/."));
    assert!(path_has_parent("./"));
}

#[test]
fn parent_rule_matches_std_on_order_cases() {
    for p in ORDER_CASES {
        assert_eq!(path_has_parent(p), Path::new(p).parent().is_some(), "parent of {:?}", p);
    }
}
