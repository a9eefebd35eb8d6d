[package]
name = "smearor_wrot_pie_menu"
version = "0.1.0"
edition = "2021"
publish = false

[dependencies]
dashmap = "*"
gtk4 = "*"
glib = "*"
serde = { version = "1", features = ["derive"] }
serde_json = "1"
thiserror = "*"
tracing = "*"
typed-builder = "*"
atomic_float = "*"
