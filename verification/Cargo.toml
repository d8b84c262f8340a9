[package]
name = "queryer"
version = "0.1.0"
edition = "2021"
publish = false

[dependencies]
sqlparser = "*"
libc = "*"

[dependencies.reqwest]
version = "*"
default-features = false
features = ["blocking"]

[dependencies.tokio]
version = "*"
features = ["rt-multi-thread", "macros", "fs"]
