[package]
name = "jobseeker"
version = "0.2.0"
edition = "2021"
publish = false

[dependencies]
chrono = "=0.4.45"
regex = "=1.13.1"
pulldown-cmark = "=0.13.6"
urlencoding = "=2.1.3"
serde = { version = "=1.0.229", features = ["derive"] }
serde_json = "=1.0.154"
redb = "=2.6.4"
anyhow = "=1.0.104"
directories = "=6.0.0"
rusqlite = { version = "=0.32.1", features = ["bundled"] }
reqwest = { version = "=0.12.28", default-features = false, features = ["json", "rustls-tls"] }
tokio = { version = "=1.54.1", features = ["rt-multi-thread", "macros", "fs"] }
zip = "=2.6.1"
docx-rs = "=0.4.22"
genpdf = "=0.2.0"
pdf-extract = "0.7"
