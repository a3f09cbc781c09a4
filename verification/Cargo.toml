[package]
name = "birb_monitor"
version = "0.1.0"
edition = "2021"
publish = false

[dependencies]
sysinfo = "=0.40.1"
serde = { version = "=1.0.229", features = ["derive"] }
serde_json = "=1.0.154"
tokio = { version = "=1.54.1", features = ["rt-multi-thread", "macros", "sync", "time", "io-util", "io-std", "process"] }
anyhow = "=1.0.104"
clap = { version = "=4.6.7", default-features = false, features = ["std", "derive", "help", "usage", "error-context"] }
bollard = "=0.21.1"
tracing = "=0.1.44"
tracing-subscriber = { version = "=0.3.23", default-features = false, features = ["fmt", "std"] }
uuid = { version = "=1.29.0", features = ["v4", "serde"] }
egui = "=0.36.2"
egui_plot = "=0.37.0"
egui_extras = "=0.36.2"
egui_dock = { version = "=0.21.1", features = ["serde"] }
egui_table = "=0.10.0"
eframe = { version = "=0.36.2", default-features = false, features = ["glow", "x11", "default_fonts", "persistence"] }
human-units = "=0.6.0"
fastrand = "=2.5.0"
lazy_static = "=1.5.1"
itertools = "=0.15.0"
ecow = { version = "=0.3.1", features = ["serde"] }
strum_macros = "=0.28.0"
ordered_hash_map = { version = "=0.6.1", features = ["serde"] }
ron = "=0.12.3"
