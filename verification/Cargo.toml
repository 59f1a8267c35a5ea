[package]
name = "glicol_lsp"
version = "0.1.0"
edition = "2021"
publish = false

[dependencies]
ropey = { version = "=1.6.1", default-features = false }
tree-sitter = "=0.20.10"
tree-sitter-highlight = "=0.20.1"
tower-lsp = "=0.20.0"
tokio = { version = "=1.53.2", features = ["full"] }
dashmap = "=5.5.3"
serde = { version = "=1.0.229", features = ["derive"] }
serde_json = "=1.0.151"
once_cell = "=1.21.4"
glicol = "=0.13.5"
pest = "2"
log = "=0.4.34"
env_logger = "=0.10.2"
