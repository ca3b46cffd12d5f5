[package]
name = "ion_shell"
version = "0.1.0"
edition = "2021"
publish = false

[dependencies]
glob = "=0.3.4"
app_dirs = "=1.2.1"
