[package]
name = "vor_commander"
version = "0.1.0"
edition = "2021"
publish = false

[dependencies]
base64 = "=0.22.1"
ed25519-dalek = "=2.2.0"
encoding_rs = "=0.8.44"
hex = "=0.4.3"
png = "=0.18.1"
rand = "=0.9.5"
rcgen = { version = "=0.14.10", features = ["x509-parser"] }
regex = "=1.13.1"
rusqlite = { version = "=0.41.1", features = ["bundled"] }
rustls = { version = "=0.23.46", features = ["ring"] }
schemars = "=1.2.3"
serde = { version = "=1.0.229", features = ["derive"] }
serde_json = "=1.0.154"
sha2 = "=0.10.9"
thiserror = "=2.0.21"
time = "=0.3.55"
tungstenite = "=0.30.0"
ureq = { version = "=3.5.1", features = ["json"] }
windows = { version = "*", features = ["Win32_Foundation", "Win32_Graphics_Gdi", "Win32_System_Com", "Win32_UI_Accessibility", "Win32_UI_WindowsAndMessaging"] }
yaml_serde = "=0.10.7"
