[package]
name = "screensync"
version = "0.1.0"
edition = "2021"
publish = false

[dependencies]
metrohash = "*"
base64 = "*"
anyhow = "*"
serde = { version = "*", features = ["derive"] }
futures = "*"
tokio = { version = "*", features = ["rt-multi-thread", "macros", "time"] }
reqwest = { version = "*", default-features = false, features = ["json"] }
cocoa = "*"
objc = "*"
core-foundation = "*"
core-graphics = "*"
foreign-types-shared = "*"
