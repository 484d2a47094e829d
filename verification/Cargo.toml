[package]
name = "sn_client"
version = "0.1.0"
edition = "2021"
publish = false

[dependencies]
bincode = "=1.3.3"
bytes = "=1.12.1"
futures = "0.3"
log = "0.4"
qp2p = "=0.9.8"
# The MessagePack encoder of sn_messaging does not compile with later versions.
rmp = "=0.8.10"
sn_data_types = "=0.13.5"
sn_messaging = "=1.6.1"
tiny-keccak = "=1.5.0"
tokio = { version = "=0.2.25", features = ["full"] }
xor_name = "=1.3.0"

[dev-dependencies]
crdts = "=4.3.0"
rand = "0.7"
threshold_crypto = "=0.4.0"
