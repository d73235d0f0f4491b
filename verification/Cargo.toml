[package]
name = "mpl_core"
version = "0.1.0"
edition = "2021"
publish = false

[dependencies]
borsh = "=0.10.4"
solana-program = "=2.3.0"
mpl-utils = { version = "=0.4.1", default-features = false }
