[package]
name = "fight_arena"
version = "0.4.2"
edition = "2021"
publish = false

[dependencies]
rand = "0.8"
serde_yaml = "0.9"
yml_dialog = "*"
