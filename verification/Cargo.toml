[package]
name = "layout_optimizer"
version = "0.1.0"
edition = "2021"
publish = false

[dependencies]
rustc-hash = "*"
priority-queue = "*"
genevo = "*"
rayon = "*"
log = "*"
env_logger = "*"
structopt = "*"
serde = { version = "*", features = ["derive"] }
serde_yaml = "*"
anyhow = "*"
dotenv = "*"
