[package]
name = "hexigraph"
version = "0.1.0"
edition = "2021"
publish = false

[dependencies]
h3o = { version = "=0.11.1", features = ["geo"] }
roaring = "=0.12.0"
hashbrown = "=0.17.1"
ahash = "=0.8.12"
geo = "=0.33.1"
osmpbfreader = "*"
clap = "4"

[dev-dependencies]
