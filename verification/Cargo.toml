[package]
name = "vaultkey"
version = "0.1.0"
edition = "2021"
publish = false

[dependencies]
argon2 = "=0.5.3"
hidapi = { version = "=2.6.7", default-features = false, features = ["linux-native-basic-udev"] }
rand = "=0.8.8"
serialport = { version = "=4.10.1", default-features = false }
zeroize = "=1.9.1"

[dev-dependencies]
serde = "=1.0.229"
serde_cbor = "=0.11.2"
