[package]
name = "beditor"
version = "0.1.0"
edition = "2021"
publish = false

[dependencies]
bevy = { version = "=0.17.3", default-features = false }
convert_case = "=0.10.0"
egui = "=0.33.3"
fuzzy-matcher = "=0.3.7"
smallvec = "=1.16.4"
uuid = "=1.29.0"
resvg = { version = "=0.49.0", default-features = false }
