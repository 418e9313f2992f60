use vstd::prelude::*;

verus! {

/// Port the server listens on when the configuration names none.
pub open spec fn spec_default_port() -> u32 {
    4989
}

/// Key length named by the configuration when it names none.
pub open spec fn spec_default_length() -> usize {
    13
}

/// Default listening port.
pub fn default_port() -> (port: u32)
    ensures
        port == spec_default_port(),
{
    4989
}

/// Default key length.
pub fn default_length() -> (length: usize)
    ensures
        length == spec_default_length(),
{
    13
}

/// User configuration: the URL prefix printed before share links, the port
/// of the local server and the configured key length.
#[derive(Debug)]
pub struct Config {
    pub prefix: String,
    pub port: u32,
    pub length: usize,
}

impl Config {
    /// The default configuration: empty prefix, default port and length.
    pub fn new() -> (c: Config)
        ensures
            c.prefix@ == Seq::<char>::empty(),
            c.port == spec_default_port(),
            c.length == spec_default_length(),
    {
        Config { prefix: String::new(), port: default_port(), length: default_length() }
    }

    /// The configuration read from the configuration file when it could be
    /// read and parsed, else the default one.
    pub fn or_default(parsed: Option<Config>) -> (c: Config)
        ensures
            parsed matches Some(p) ==> c == p,
            parsed is None ==> c.prefix@ == Seq::<char>::empty() && c.port == spec_default_port()
                && c.length == spec_default_length(),
    {
        match parsed {
            Some(p) => p,
            None => Config::new(),
        }
    }
}

} // verus!
