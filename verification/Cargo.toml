[package]
name = "terminus_rooms"
version = "0.1.0"
edition = "2021"
publish = false

[dependencies]
anyhow = "1"
axum = { version = "0.8", default-features = false, features = ["http1", "json", "query", "tokio", "ws"] }
blake3 = { version = "=1.8.7", default-features = false }
clap = { version = "4", default-features = false, features = ["std", "derive", "help", "usage", "error-context"] }
futures-util = { version = "0.3", default-features = false, features = ["sink"] }
hex = "=0.4.3"
iroh = { version = "=1.4.1", default-features = false, features = ["tls-ring"] }
iroh-gossip = "*"
n0-future = "*"
rand = "*"
serde = { version = "=1.0.229", features = ["derive"] }
serde_json = "=1.0.154"
tokio = { version = "1", features = ["macros", "net", "rt-multi-thread", "sync", "time"] }
tower-http = { version = "0.6", features = ["cors", "fs"] }
tracing = "0.1"
tracing-subscriber = { version = "0.3", default-features = false, features = ["env-filter", "fmt"] }
url = "2"
wasm-bindgen = "0.2"
