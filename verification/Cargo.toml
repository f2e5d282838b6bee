[package]
name = "xades"
version = "0.1.0"
edition = "2021"
publish = false

[dependencies]
base64 = "=0.22.1"
bergshamra-c14n = "=0.7.0"
bergshamra-core = "=0.7.0"
bergshamra-crypto = "=0.7.0"
bergshamra-keys = "=0.7.0"
bergshamra-pkcs12 = "=0.7.0"
bergshamra-xml = "=0.7.0"
chrono = "=0.4.45"
der = { version = "=0.7.10", features = ["derive", "alloc", "std", "oid", "pem"] }
percent-encoding = "=2.3.2"
pkcs8 = { version = "=0.10.2", features = ["3des", "encryption", "pem", "std"] }
rsa = { version = "=0.9.10", features = ["getrandom"] }
sha1 = { version = "=0.10.7", features = ["oid"] }
sha2 = { version = "=0.10.9", features = ["oid"] }
sha3 = { version = "=0.10.9", features = ["oid"] }
tokenkey = "=0.1.2"
tokio = { version = "=1.54.1", features = ["rt", "net", "time"] }
tsp-ltv = "=0.3.1"
x509-cert = { version = "=0.2.5", features = ["std", "pem"] }
zeroize = "=1.9.1"

[dev-dependencies]
rcgen = "=0.14.10"
