[package]
name = "shopping_list"
version = "0.1.0"
edition = "2021"
publish = false

[dependencies]
log = "0.4"
log4rs = "1"
structopt = "0.3"
tokio = { version = "1", features = ["macros", "rt-multi-thread", "sync"] }
warp = "0.3"

[dev-dependencies]
serde_json = "1"
