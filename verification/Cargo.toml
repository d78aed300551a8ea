[package]
name = "node_state"
version = "0.1.0"
edition = "2021"
publish = false

[dependencies]
anymap = "=0.12.1"
dioxus-core = "=0.2.1"
dioxus-native-core = "=0.2.0"
dioxus-native-core-macro = "=0.2.0"
skia-safe = "=0.153.3"
