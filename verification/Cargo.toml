[package]
name = "bevy_fluent_typed"
version = "0.1.2"
edition = "2021"
publish = false

[dependencies]
serde_json = "1"
toml_edit = "*"
tempfile = "3"
fluent-typed = "*"
fluent-syntax = "*"
fluent_typed_codegen = "*"
bevy = { version = "0.19", default-features = false, features = ["bevy_asset", "bevy_text", "bevy_ui", "bevy_sprite"] }
