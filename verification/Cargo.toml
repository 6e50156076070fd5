[package]
name = "skein_rpc"
version = "0.1.0"
edition = "2021"
publish = false

[dependencies]
uuid = { version = "*", features = ["v4"] }
gethostname = "*"
lapin = "*"
tokio = { version = "*", features = ["full"] }
futures = "*"
async-trait = "*"
serde = { version = "*", features = ["derive"] }
serde_json = "*"
log = "*"
dotenv = "*"
clap = { version = "*", features = ["derive"] }
amq-protocol-types = "*"
