[package]
name = "expr_node"
version = "0.1.0"
edition = "2021"
publish = false

[dependencies]
eframe = { version = "0.31", default-features = false, features = ["glow", "persistence", "x11"] }
egui = "0.31"
egui_extras = { version = "0.31", default-features = false, features = ["image"] }
egui-snarl = { version = "0.7", features = ["serde"] }
serde = { version = "1", features = ["derive"] }
