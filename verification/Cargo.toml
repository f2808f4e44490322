[package]
name = "roomrtc"
version = "0.1.0"
edition = "2021"
publish = false

[dependencies]
sha2 = "=0.10.9"
hkdf = "=0.12.4"
aes-gcm = "=0.10.3"
rand = "=0.9.5"
hex = "=0.4.3"
opus = "=0.3.1"
rcgen = "=0.11.3"
sctp-proto = "=0.10.8"
bytes = "=1.12.1"
openh264 = "0.6"
