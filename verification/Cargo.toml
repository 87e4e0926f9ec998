[package]
name = "packet_generator"
version = "0.1.0"
edition = "2021"
publish = false

[dependencies]
kdl = "6"
miette = { version = "7", features = ["fancy"] }
petgraph = "*"
path-clean = "1"
stringcase = "*"
itertools = "*"
winnow = "0.7"
glob = "0.3"
bpaf = { version = "0.9", features = ["derive"] }
thiserror = "2"
mimalloc = "0.1"
tokio = { version = "1", features = ["rt-multi-thread", "macros", "io-std"] }
tower-lsp = "0.20"
dashmap = "6"
ropey = "1"
atomicow = "1"
