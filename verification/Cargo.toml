[package]
name = "swc_plugin_formatjs"
version = "0.1.0"
edition = "2021"
publish = false

[dependencies]
base64 = "0.22"
sha2 = "0.10"
serde = { version = "1", features = ["derive"] }
serde_json = "1"
swc_core = { version = "54.0.0", features = ["ecma_ast", "ecma_visit", "common"] }

[dev-dependencies]
regex = "1"
