[package]
name = "argocd_diff_preview"
version = "0.1.0"
edition = "2021"
publish = false

[dependencies]
serde_yaml = "*"
regex = "*"
base64 = "*"
walkdir = "*"
structopt = "*"
rand = "*"
