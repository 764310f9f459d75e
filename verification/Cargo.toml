[package]
name = "texlab_core"
version = "0.1.0"
edition = "2021"
publish = false

[dependencies]
lsp-server = "*"
lsp-types = "*"
serde = "*"
serde_json = "*"
crossbeam-channel = "*"
threadpool = "*"
notify = "*"
