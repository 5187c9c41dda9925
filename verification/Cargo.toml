[package]
name = "encgraph"
version = "0.1.0"
edition = "2021"
publish = false

[dependencies]
soft-aes = "*"
base64 = "*"
blake3 = "*"
uuid = { version = "*", features = ["v4"] }
neo4rs = "*"
tokio = { version = "*", features = ["macros", "net", "io-util", "rt-multi-thread"] }
anyhow = "*"
dotenv = "*"
libc = "*"
sgx_types = "*"
rustls = "*"
tokio-rustls = "*"
rustls-pemfile = "*"

[dev-dependencies]
serde_json = "*"
