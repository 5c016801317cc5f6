[package]
name = "starpls"
version = "0.1.0"
edition = "2021"
publish = false

[dependencies]
annotate-snippets = "=0.12.17"
anstream = "=1.0.0"
anyhow = "=1.0.104"
clap = { version = "=4.6.7", features = ["derive"] }
crossbeam-channel = "=0.5.17"
either = "=1.19.0"
env_logger = "=0.11.11"
get-size2 = "=0.10.1"
indexmap = "=2.14.2"
log = "=0.4.35"
lsp-server = "=0.7.9"
lsp-types = "=0.95.1"
parking_lot = "=0.12.5"
prost = "=0.14.4"
rayon = "=1.12.0"
ruff_db = "=0.0.5"
ruff_notebook = "=0.0.5"
ruff_python_ast = "=0.0.5"
ruff_python_parser = "=0.0.5"
ruff_source_file = "=0.0.5"
ruff_text_size = "=0.0.5"
rustc-hash = "=2.1.3"
salsa = "=0.28.0"
serde = { version = "=1.0.229", features = ["derive"] }
serde_json = "=1.0.154"
smallvec = "=1.16.4"
stacker = "=0.1.25"
toml = "=0.9.12"
walkdir = "=2.5.0"
