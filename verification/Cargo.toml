[package]
name = "git-global"
version = "0.6.0"
edition = "2021"
publish = false

[dependencies]
clap = { version = "=3.2.25", features = ["cargo"] }
directories = "=6.0.0"
git2 = { version = "=0.21.0", default-features = false }
json = "=0.12.4"
man = "=0.3.0"
num_cpus = "=1.17.0"
serde_json = "=1.0.154"
walkdir = "=2.5.0"

[dev-dependencies]
regex = "1"
tempfile = "3"
