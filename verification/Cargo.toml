[package]
name = "betterty"
version = "0.1.0"
edition = "2021"
publish = false

[dependencies]
anyhow = "=1.0.104"
proc-macro2 = "=1.0.107"
serde = { version = "=1.0.219", features = ["derive"] }
serde_json = "=1.0.140"
structopt = "=0.3.26"
swc_common = "=0.33.26"
swc_ecma_ast = "=0.110.17"
swc_ecma_dep_graph = "=0.113.22"
swc_ecma_parser = "=0.141.37"
syn = { version = "=1.0.109", features = ["full", "extra-traits"] }
