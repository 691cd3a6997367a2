[package]
name = "messy_folder_reorganizer_ai"
version = "0.1.0"
edition = "2021"
publish = false

[dependencies]
colored = "*"
prettytable-rs = "*"
serde = { version = "*", features = ["derive"] }
serde_json = "*"
