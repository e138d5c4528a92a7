[package]
name = "aqua_dex"
version = "1.0.0"
edition = "2021"
publish = false

[dependencies]
murmur3 = "0.5"
solana-program = "1.17"
anchor-lang = { version = "0.29", features = ["init-if-needed"] }
anchor-spl = { version = "0.29", default-features = false, features = ["token", "associated_token"] }

[dev-dependencies]
bytemuck = "1"
