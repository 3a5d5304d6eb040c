[package]
name = "zkcash"
version = "0.1.0"
edition = "2021"
publish = false

[dependencies]
anchor-lang = "=1.2.1"
ark-bn254 = "=0.5.0"
ark-ff = "=0.5.0"
ark-serialize = "=0.5.0"
bytemuck = { version = "=1.25.2", features = ["derive", "min_const_generics"] }
light-hasher = { version = "=7.0.0", features = ["poseidon"] }
solana-bn254 = "=3.2.1"
solana-sha256-hasher = { version = "=3.1.0", features = ["sha2"] }

[dev-dependencies]
num-bigint = "=0.4.8"
