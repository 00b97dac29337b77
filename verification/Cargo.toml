[package]
name = "leptos_blitz"
version = "0.1.0"
edition = "2021"
publish = false

[dependencies]
slotmap = "=1.1.1"
html-escape = "=0.2.15"
html5ever = "=0.39.0"
markup5ever = "=0.39.0"
markup5ever_rcdom = "=0.39.0"
blitz-dom = "=0.2.4"
blitz-traits = "=0.2.0"
blitz-shell = { version = "=0.2.3", default-features = false }
anyrender = "=0.6.2"
tokio = { version = "=1.54.1", features = ["rt", "rt-multi-thread"] }
futures-util = "=0.3.34"
any_spawner = { version = "=0.3.0", features = ["tokio"] }
reactive_graph = "=0.2.16"
