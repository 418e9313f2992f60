use instant_karma::order::text_before;
use instant_karma::text::{chars_of, push_decimal, replace};

#[test]
fn replace_matches_str_replace() {
    let cases = [
        ("a{}b{}c", "{}", "X"),
        ("///", "//", "/"),
        ("//k//", "//", "/"),
        ("{path}", "{path}", "p/q"),
        ("no slots here", "{}", "X"),
        ("", "{}", "X"),
        ("{", "{}", "X"),
        ("aaaa", "aa", "b"),
        ("héllo {} wörld", "{}", "ünï"),
        ("{}{}", "{}", "{}"),
        ("ab", "", "-"),
        ("", "", "-"),
        ("ü", "", ""),
    ];
    for (s, p, r) in cases {
        assert_eq!(replace(s, p, r), s.replace(p, r), "replace({:?}, {:?}, {:?})", s, p, r);
    }
}

#[test]
fn replace_takes_leftmost_non_overlapping_matches() {
    assert_eq!(replace("aaa", "aa", "b"), "ba");
    assert_eq!(replace("///", "//", "/"), "//");
}

#[test]
fn chars_of_keeps_every_character() {
    assert_eq!(chars_of("añb"), vec!['a', 'ñ', 'b']);
    assert_eq!(chars_of(""), Vec::<char>::new());
}

#[test]
fn decimal_matches_to_string() {
    for n in [0u32, 7, 9, 10, 99, 100, 4989, 65535, 1_000_000, u32::MAX] {
        let mut s = String::from("x");
        push_decimal(&mut s, n);
        assert_eq!(s, format!("x{}", n));
    }
}

#[test]
fn text_order_matches_str_order() {
    let words = ["", "a", "b", "ab", "a-b", "a/b", "B", "é", "z", "aa"];
    for a in words {
        for b in words {
            assert_eq!(text_before(a, b), a < b, "{:?} < {:?}", a, b);
        }
    }
}
