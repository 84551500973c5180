[package]
name = "native-machine"
version = "0.1.0"
edition = "2021"
publish = false

[dependencies]
clap = { version = "4", features = ["derive", "env"] }
libloading = "*"
memmap2 = "*"
serde = { version = "1", features = ["derive"] }
sha2 = "*"
thiserror = "*"
toml = "*"
uor-addr = "*"
