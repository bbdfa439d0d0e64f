[package]
name = "fandom_data"
version = "0.1.0"
edition = "2021"
publish = false

[dependencies]
anyhow = "1"
chord = "*"
chrono = "0.4"
clap = { version = "3", features = ["derive"] }
elasticsearch = { version = "8.5.0-alpha.1", default-features = false, features = ["rustls-tls"] }
env_logger = "*"
log = "0.4"
palette = "0.5"
plotters = { version = "0.3", default-features = false, features = ["bitmap_backend", "bitmap_encoder", "chrono", "line_series"] }
rayon = "1"
reqwest = { version = "0.11", default-features = false, features = ["blocking", "rustls-tls"] }
scraper = "*"
serde = { version = "1", features = ["derive"] }
serde_json = "1"
tokio = { version = "1", features = ["macros", "rt-multi-thread"] }
