[package]
name = "ecg_ingest"
version = "0.1.0"
edition = "2021"
publish = false

[dependencies]
anyhow = "=1.0.104"
eframe = { version = "0.32", default-features = false, features = ["default_fonts", "glow", "x11"] }
egui = { version = "0.32", default-features = false }
egui_extras = { version = "0.32", default-features = false }
egui_plot = { version = "0.33", default-features = false }
prost = "=0.14.4"
tokio = { version = "=1.54.1", features = ["macros", "rt-multi-thread", "sync"] }
tonic = "=0.14.6"
tonic-prost = "=0.14.6"
tracing = "=0.1.44"
