[package]
name = "omicron"
version = "0.1.0"
edition = "2021"
publish = false

[dependencies]
anyhow = "1"
async-trait = "0.1"
camino = "1"
chrono = "0.4"
crossterm = "0.27"
dropshot = "0.10"
futures = "0.3"
http = "0.2"
macaddr = "1"
regex = "1"
serde = { version = "1", features = ["derive"] }
serde_json = "1"
slog = "2"
steno = "0.4"
thiserror = "1"
tokio = { version = "1", features = ["full"] }
tui = "0.19"
uuid = { version = "1", features = ["v4", "serde"] }
