[package]
name = "tracefox"
version = "0.1.0"
edition = "2021"
publish = false

[dependencies]
anyhow = "1"
base64 = "=0.22.1"
chrono = "=0.4.45"
flate2 = "=1.1.10"
notify = "6"
open = "5"
rayon = "1"
regex = "=1.13.1"
reqwest = { version = "0.12", default-features = false, features = ["blocking", "rustls-tls"] }
serde = { version = "=1.0.229", features = ["derive"] }
serde_json = "=1.0.154"
sha2 = "=0.10.9"
tar = "0.4"
url = "=2.5.8"
windows = { version = "0.58", features = ["Data_Xml_Dom", "Foundation", "UI_Notifications", "Win32_System_WinRT"] }
windows-sys = { version = "0.59", features = ["Win32_Foundation", "Win32_Security_Credentials", "Win32_Storage_FileSystem"] }
winreg = "0.52"

[dev-dependencies]
tempfile = "3"
