[package]
name = "instant_karma"
version = "0.1.0"
edition = "2021"
publish = false

[dependencies]
uuid = { version = "1", features = ["v4"] }
html-escape = "0.2"
pulldown-cmark = { version = "*", default-features = false, features = ["html"] }
serde = { version = "1", features = ["derive"] }
toml = "*"
tide = "0.16"
async-std = { version = "1", features = ["attributes"] }
sqlx = { version = "0.8", default-features = false, features = ["sqlite", "runtime-async-std", "migrate"] }
notify = "*"
structopt = "0.3"
async-ctrlc = "1"
once_cell = "1"
log = "0.4"
