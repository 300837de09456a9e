[package]
name = "auralis"
version = "0.1.0"
edition = "2021"
publish = false

[dependencies]
rand = "=0.10.3"
serde = { version = "=1.0.229", features = ["derive"] }
serde_json = "=1.0.154"
tokio = { version = "=1.54.1", features = ["rt", "rt-multi-thread", "time", "fs", "io-util"] }
reqwest = { version = "=0.12.28", default-features = false, features = ["rustls-tls"] }
rodio = { version = "=0.23.0", default-features = false, features = ["flac", "mp3", "mp4", "vorbis", "wav", "symphonia-mkv"] }
lofty = "*"
symphonia = { version = "0.5", features = ["mkv"] }
glob = "0.3"
uuid = { version = "1", features = ["v4"] }
chrono = "0.4"
