[package]
name = "grasql"
version = "0.1.0"
edition = "2021"
publish = false

[dependencies]
graphql-query = "*"
once_cell = "*"
xxhash-rust = { version = "*", features = ["xxh3"] }
