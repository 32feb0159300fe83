[package]
name = "cargo_furnish"
version = "0.1.0"
edition = "2021"
publish = false

[dependencies]
toml_edit = "*"
bpaf = { version = "0.9", features = ["derive", "docgen"] }
miette = { version = "7", features = ["fancy"] }
thiserror = "2"
anyhow = "1"
glob = "0.3"
ansi-term-styles = "*"
