[package]
name = "tiptop"
version = "0.1.0"
edition = "2021"
publish = false

[dependencies]
bincode = "=0.8.0"
docopt = "=0.8.3"
petgraph = "=0.4.13"
rand = "=0.3.23"
rayon = "=0.8.2"
serde = "=1.0.229"
serde_derive = "=1.0.229"
serde_json = "=1.0.154"
slog = "=1.7.1"
slog-json = "=1.2.1"
slog-stream = "=1.2.1"
slog-term = "=1.5.0"
statrs = "=0.7.0"
