//! Verified core of a small "share a file over HTTP" tool: configuration,
//! share keys, the in-memory content store, page rendering from templates,
//! directory index building and file-change bookkeeping.

pub mod config;
pub mod text;
pub mod assoc;
pub mod key;
pub mod dict;
pub mod load;
pub mod escape;
pub mod markdown;
pub mod pages;
pub mod paths;
pub mod order;
pub mod entry;
pub mod watch;
pub mod statics;
