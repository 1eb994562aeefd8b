[package]
name = "obcast"
version = "0.1.0"
edition = "2021"
publish = false

[dependencies]
anyhow = "1"
async-stream = "0.3"
axum = { version = "0.7", features = ["ws"] }
clap = { version = "4", default-features = false, features = ["std", "derive", "env", "help", "usage", "error-context"] }
cpal = "*"
directories = "*"
eframe = { version = "*", default-features = false, features = ["default_fonts", "glow", "x11"] }
futures = "0.3"
futures-util = "0.3"
reqwest = { version = "*", default-features = false, features = ["json", "stream"] }
ringbuf = "0.4"
serde = { version = "1", features = ["derive"] }
serde_json = "1"
thread-priority = "*"
tokio = { version = "1", features = ["fs", "io-util", "macros", "net", "process", "rt-multi-thread", "signal", "sync", "time"] }
toml = "*"
tower-http = { version = "0.6", features = ["fs"] }
tracing = "0.1"
tracing-subscriber = { version = "0.3", default-features = false, features = ["fmt"] }
