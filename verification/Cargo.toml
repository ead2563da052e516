[package]
name = "sdr"
version = "0.1.0"
edition = "2021"
publish = false

[dependencies]
bincode = "1.3"
bytemuck = { version = "1", features = ["derive"] }
chrono = { version = "=0.4.45", default-features = false, features = ["clock", "std"] }
cpal = "0.17"
dirs = "6"
eframe = { version = "0.33", default-features = false, features = ["default_fonts", "wgpu", "x11"] }
egui_plot = "0.34"
env_logger = { version = "0.10", default-features = false }
hound = "3.5"
log = "0.4"
nemotron-asr = "*"
num-complex = "0.4"
rayon = "1"
rfd = { version = "0.15", default-features = false, features = ["xdg-portal", "tokio"] }
rustfft = "6"
serde = { version = "1", features = ["derive"] }
serde_json = "1"
slotmap = "=1.1.1"
