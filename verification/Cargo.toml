[package]
name = "resync"
version = "0.1.0"
edition = "2021"
publish = false

[dependencies]
aho-corasick = "1"
bat = { version = "*", default-features = false, features = ["regex-fancy"] }
clap = "3"
dirs = "*"
git2 = { version = "*", default-features = false }
pathdiff = "0.2"
pickledb = "0.5"
proc-macro2 = { version = "1", features = ["span-locations"] }
serde = { version = "1", features = ["derive"] }
syn = { version = "1", features = ["full", "visit", "extra-traits"] }
swc_common = "*"
swc_ecma_ast = "*"
swc_ecma_parser = "*"
swc_ecma_visit = "*"
walkdir = "2"
