[package]
name = "nettfiske"
version = "0.3.0"
edition = "2021"
publish = false

[dependencies]
strsim = "0.10"
idna = "0.2"
unicode_skeleton = "0.1"
publicsuffix = "1.5"
serde = { version = "1", features = ["derive"] }
serde_json = "1"
tungstenite = "0.10"
url = "2"
clap = "2"
console = "0.15"
fern = "0.6"
chrono = "0.4"
log = "0.4"
error-chain = "0.12"
