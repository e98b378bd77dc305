[package]
name = "protoflow"
version = "0.1.0"
edition = "2021"
publish = false

[dependencies]
argfile = "*"
clap = { version = "4", features = ["derive"] }
dotenvy = "*"
proc-macro2 = "1"
quote = "1"
syn = { version = "2", features = ["full"] }
wild = "*"
