use instant_karma::config::{default_length, default_port, Config};
use instant_karma::statics::{config_path, key_link, key_route, listener_address, share_link};
use instant_karma::key::Key;

#[test]
fn defaults_are_port_4989_and_length_13() {
    assert_eq!(default_port(), 4989);
    assert_eq!(default_length(), 13);
}

#[test]
fn new_config_is_the_default() {
    let c = Config::new();
    assert_eq!(c.prefix, "");
    assert_eq!(c.port, 4989);
    assert_eq!(c.length, 13);
}

#[test]
fn or_default_keeps_a_parsed_config() {
    let parsed = Config { prefix: "https://x/".to_string(), port: 8080, length: 5 };
    let c = Config::or_default(Some(parsed));
    assert_eq!(c.prefix, "https://x/");
    assert_eq!(c.port, 8080);
    assert_eq!(c.length, 5);
}

#[test]
fn or_default_falls_back_when_nothing_parsed() {
    let c = Config::or_default(None);
    assert_eq!(c.prefix, "");
    assert_eq!(c.port, 4989);
    assert_eq!(c.length, 13);
}

#[test]
fn config_path_prefers_xdg_config_home() {
    let p = config_path(Some("/home/u/.cfg".to_string()), Some("/home/u".to_string()));
    assert_eq!(p, "/home/u/.cfg/instant-karma/config.toml");
}

#[test]
fn config_path_uses_home_dot_config_otherwise() {
    let p = config_path(None, Some("/home/u".to_string()));
    assert_eq!(p, "/home/u/.config/instant-karma/config.toml");
}

#[test]
fn config_path_does_not_double_a_trailing_slash() {
    let p = config_path(Some("/etc/".to_string()), None);
    assert_eq!(p, "/etc/instant-karma/config.toml");
}

#[test]
fn config_path_with_empty_xdg_is_relative() {
    let p = config_path(Some(String::new()), None);
    assert_eq!(p, "instant-karma/config.toml");
}

#[test]
fn config_path_matches_pathbuf_push() {
    for base in ["/a", "/a/", "", "rel", "x//"] {
        let mut expected = std::path::PathBuf::from(base);
        expected.push("instant-karma");
        expected.push("config.toml");
        assert_eq!(config_path(Some(base.to_string()), None), expected.to_str().unwrap());
    }
}

#[test]
fn listener_address_of_default_port() {
    assert_eq!(listener_address(4989), "127.0.0.1:4989");
}

#[test]
fn listener_address_edge_ports() {
    assert_eq!(listener_address(0), "127.0.0.1:0");
    assert_eq!(listener_address(10), "127.0.0.1:10");
    assert_eq!(listener_address(u32::MAX), format!("127.0.0.1:{}", u32::MAX));
}

#[test]
fn links_put_prefix_key_and_path_together() {
    let k = Key::from("abc");
    assert_eq!(key_link("http://h/", &k), "http://h/abc");
    assert_eq!(share_link("http://h/", &k, "notes.md"), "http://h/abc/notes.md");
    assert_eq!(share_link("", &k, ""), "abc/");
    assert_eq!(key_route(&k), "/abc");
}
