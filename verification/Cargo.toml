[package]
name = "webinfo"
version = "0.1.0"
edition = "2021"
publish = false

[dependencies]
anyhow = "*"
clap = { version = "*", features = ["derive"] }
csv = "*"
futures = "*"
hickory-proto = "*"
hickory-resolver = "*"
ip_network = "*"
ip2asn = "*"
publicsuffix2 = "*"
reqwest = "*"
rustls = "*"
rustls-native-certs = "*"
serde = { version = "*", features = ["derive"] }
serde_json = "*"
tokio = { version = "*", features = ["full"] }
url = "*"
x509-parser = "*"
