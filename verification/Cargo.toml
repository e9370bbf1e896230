[package]
name = "novault"
version = "0.1.0"
edition = "2021"
publish = false

[dependencies]
aes-gcm = "0.10"
anyhow = "1"
argon2 = "0.5"
atomicwrites = "*"
aws-sign-v4 = "*"
chacha20poly1305 = "0.10"
chrono = "0.4"
clap = { version = "4", features = ["derive"] }
colorize = "*"
crossterm = "*"
ignore = "0.4"
rand = "0.9"
reqwest = { version = "*", default-features = false, features = ["blocking", "rustls-tls"] }
rpassword = "*"
serde = { version = "1", features = ["derive"] }
toml = "*"
walkdir = "2"
windows-sys = { version = "*", features = ["Win32_Foundation", "Win32_Storage_FileSystem"] }
zip = { version = "2", default-features = false, features = ["deflate"] }
