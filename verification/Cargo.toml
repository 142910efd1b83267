[package]
name = "nexttag"
version = "0.1.0"
edition = "2021"
publish = false

[dependencies]
anyhow = "*"
bpaf = "*"
dialoguer = "*"
fern = "*"
indoc = "*"
log = "*"
nanoserde = "*"
owo-colors = "*"
regex-lite = "*"
ureq = "*"
