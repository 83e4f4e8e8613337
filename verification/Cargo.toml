[package]
name = "actorgen"
version = "0.1.0"
edition = "2021"
publish = false

[dependencies]
Inflector = "*"
syn = { version = "*", features = ["full", "parsing", "printing", "clone-impls"] }
quote = "*"
proc-macro2 = "*"
