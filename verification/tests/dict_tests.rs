use instant_karma::dict::{put_dict, Dict};
use instant_karma::key::Key;
use instant_karma::load::load_input_to_dict;

#[test]
fn empty_store_has_nothing() {
    let d = Dict::new();
    assert_eq!(d.get(&Key::from("a")), None);
}

#[test]
fn read_after_write_gives_the_text() {
    let mut d = Dict::new();
    put_dict(&mut d, &Key::from("a"), "hello");
    assert_eq!(d.get(&Key::from("a")), Some("hello".to_string()));
    assert_eq!(d.get(&Key::from("b")), None);
}

#[test]
fn last_write_wins() {
    let mut d = Dict::new();
    put_dict(&mut d, &Key::from("a"), "one");
    put_dict(&mut d, &Key::from("b"), "bee");
    put_dict(&mut d, &Key::from("a"), "two");
    assert_eq!(d.get(&Key::from("a")), Some("two".to_string()));
    assert_eq!(d.get(&Key::from("b")), Some("bee".to_string()));
}

#[test]
fn load_stores_what_was_read() {
    let mut d = Dict::new();
    let k = Key::from("k");
    let r = load_input_to_dict(&mut d, &k, Ok("# title".to_string()));
    assert!(r.is_ok());
    assert_eq!(d.get(&k), Some("# title".to_string()));
}

#[test]
fn failed_load_stores_nothing_and_returns_the_error() {
    let mut d = Dict::new();
    let k = Key::from("k");
    let err = std::io::Error::new(std::io::ErrorKind::NotFound, "no such file");
    let r = load_input_to_dict(&mut d, &k, Err(err));
    let e = r.unwrap_err();
    assert_eq!(e.kind(), std::io::ErrorKind::NotFound);
    assert_eq!(d.get(&k), None);
}
