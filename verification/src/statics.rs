use vstd::prelude::*;
use crate::key::Key;
use crate::paths::{join, path_join};
use crate::text::{decimal, push_char, push_decimal, push_str};

verus! {

/// Where the configuration file lies: under `$XDG_CONFIG_HOME` when it is
/// set, else under `$HOME/.config`, in `instant-karma/config.toml`.
pub open spec fn config_path_of(xdg: Option<Seq<char>>, home: Seq<char>) -> Seq<char> {
    let base = match xdg {
        Some(p) => p,
        None => home + "/.config"@,
    };
    join(join(base, "instant-karma"@), "config.toml"@)
}

/// The path of the configuration file, from the values of the variables
/// `XDG_CONFIG_HOME` and `HOME` (the second is needed only when the first
/// is unset).
pub fn config_path(xdg: Option<String>, home: Option<String>) -> (p: String)
    requires
        xdg is Some || home is Some,
    ensures
        p@ == config_path_of(
            match xdg {
                Some(x) => Some(x@),
                None => None,
            },
            match home {
                Some(h) => h@,
                None => Seq::empty(),
            },
        ),
{
    let base = match xdg {
        Some(x) => x,
        None => {
            let mut b = match home {
                Some(h) => h,
                None => String::new(),
            };
            push_str(&mut b, "/.config");
            b
        },
    };
    let dir = path_join(base.as_str(), "instant-karma");
    path_join(dir.as_str(), "config.toml")
}

/// `127.0.0.1:` followed by the port in decimal: the address the server
/// listens on.
pub open spec fn listener_of(port: u32) -> Seq<char> {
    "127.0.0.1:"@ + decimal(port as nat)
}

/// The address the local server listens on.
pub fn listener_address(port: u32) -> (a: String)
    ensures
        a@ == listener_of(port),
{
    let mut a = "127.0.0.1:".to_owned();
    push_decimal(&mut a, port);
    a
}

/// The link printed for a shared text or directory: the configured prefix
/// followed by the key.
pub fn key_link(prefix: &str, k: &Key) -> (l: String)
    ensures
        l@ == prefix@ + k@,
{
    let mut l = prefix.to_owned();
    push_str(&mut l, k.as_str());
    l
}

/// The link to a shared path: the prefix, the key, `/` and the path.
pub fn share_link(prefix: &str, k: &Key, path: &str) -> (l: String)
    ensures
        l@ == prefix@ + k@ + seq!['/'] + path@,
{
    let mut l = key_link(prefix, k);
    push_char(&mut l, '/');
    push_str(&mut l, path);
    l
}

/// The route under which a shared directory's files are served: `/` and
/// the key.
pub fn key_route(k: &Key) -> (r: String)
    ensures
        r@ == seq!['/'] + k@,
{
    let mut r = String::new();
    push_char(&mut r, '/');
    push_str(&mut r, k.as_str());
    r
}

} // verus!
