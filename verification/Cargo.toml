[package]
name = "ow_protocol"
version = "0.1.0"
edition = "2021"
publish = false

[dependencies]
miniz_oxide = "0.8"
quick-xml = "0.36"
sha2 = "0.10"
c-kzg = "1"
alloy = { version = "0.3", default-features = false, features = ["std", "reqwest", "contract", "providers", "network", "signer-local", "rpc-types", "consensus", "kzg", "eips"] }
reqwest = { version = "0.12", default-features = false, features = ["json", "multipart", "stream"] }
serde = { version = "1", features = ["derive"] }
tokio = { version = "1", features = ["macros", "rt-multi-thread", "fs"] }
tokio-util = { version = "0.7", features = ["codec"] }
infer = "0.16"
dotenvy = "0.15"
