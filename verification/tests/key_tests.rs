use instant_karma::key::Key;

#[test]
fn new_key_is_a_hyphenated_v4_uuid() {
    let k = Key::new();
    let s = k.to_string();
    let cs: Vec<char> = s.chars().collect();
    assert_eq!(cs.len(), 36);
    for (i, c) in cs.iter().enumerate() {
        if i == 8 || i == 13 || i == 18 || i == 23 {
            assert_eq!(*c, '-');
        } else {
            assert!(c.is_ascii_hexdigit() && !c.is_ascii_uppercase());
        }
    }
    assert_eq!(cs[14], '4');
    assert!("89ab".contains(cs[19]));
}

#[test]
fn new_keys_differ() {
    assert_ne!(Key::new().to_string(), Key::new().to_string());
}

#[test]
fn key_from_text_keeps_the_text() {
    let k = Key::from("my-key");
    assert_eq!(k.as_str(), "my-key");
    assert_eq!(k.to_string(), "my-key");
    assert!(k.same(&Key::from("my-key")));
    assert!(!k.same(&Key::from("other")));
    assert_eq!(k.clone_key().as_str(), "my-key");
}

#[test]
fn keys_are_the_same_exactly_when_texts_are() {
    assert!(Key::from(" a").same(&Key::from(" a")));
    assert!(!Key::from("A").same(&Key::from("a")));
    assert!(!Key::from("a ").same(&Key::from("a")));
}

#[test]
fn keys_order_as_their_texts() {
    let words = ["", "a", "b", "ab", "A", "é", "a-b", "a/b", "zz"];
    for s in words {
        for t in words {
            assert_eq!(Key::from(s).partial_cmp(&Key::from(t)), s.partial_cmp(t), "{:?} vs {:?}", s, t);
            assert_eq!(Key::from(s).cmp(&Key::from(t)), s.cmp(t), "{:?} vs {:?}", s, t);
            assert_eq!(Key::from(s) == Key::from(t), s == t);
            assert_eq!(Key::from(s) < Key::from(t), s < t);
        }
    }
}
