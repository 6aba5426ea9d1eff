[package]
name = "window_switcher"
version = "0.1.0"
edition = "2021"
publish = false

[dependencies]
fuzzy-matcher = "*"
hyprland = "*"
anyrun-plugin = "*"
abi_stable = "*"
ron = "*"
serde = { version = "*", features = ["derive"] }
