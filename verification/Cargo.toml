[package]
name = "rss_hacker"
version = "0.1.0"
edition = "2021"
publish = false

[dependencies]
rss = "2"
select = "0.6"
bytes = "1"
clap = { version = "3", features = ["derive"] }
futures = "0.3"
reqwest = { version = "0.11", default-features = false, features = ["rustls-tls"] }
tokio = { version = "1", features = ["rt-multi-thread", "macros", "fs"] }
warp = { version = "0.3", default-features = false }
