[package]
name = "sshvideo"
version = "0.1.0"
edition = "2021"
publish = false

[dependencies]
base64 = "0.22"
ssh2 = "0.9"
