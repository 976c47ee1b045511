[package]
name = "db2vec"
version = "0.1.0"
edition = "2021"
publish = false

[dependencies]
html2text = "*"
uuid = { version = "*", features = ["v4"] }
base64 = "*"
encoding_rs = "*"
serde_json = "*"
serde = { version = "*", features = ["derive"] }
clap = { version = "*", features = ["derive", "env"] }
dotenvy = "*"
env_logger = "*"
log = "*"
reqwest = { version = "*", default-features = false, features = ["blocking", "json"] }
tokio = { version = "*", features = ["rt-multi-thread", "macros", "time"] }
futures = "*"
async-trait = "*"
num_cpus = "*"
rayon = "*"
redis = "*"
encoding_rs_io = "*"
