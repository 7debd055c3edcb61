[package]
name = "ren_find"
version = "0.1.0"
edition = "2021"
publish = false

[dependencies]
regex = "1"
indexmap = "2"
diffy-fork-filenames = "*"
clap = { version = "4", features = ["derive"] }
thiserror = "1"
