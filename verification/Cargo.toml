[package]
name = "aptos_node"
version = "0.1.0"
edition = "2021"
publish = false

[dependencies]
anyhow = "=1.0.104"
ark-bls12-381 = "=0.3.0"
ark-ec = "=0.3.0"
ark-ff = "=0.3.0"
ark-serialize = "=0.3.0"
async-graphql = "*"
better_any = { version = "*", features = ["derive"] }
bls12_381 = "=0.9.0"
clap = { version = "*", features = ["derive"] }
dhat = "*"
futures = "*"
futures-channel = "*"
num-traits = "=0.2.19"
once_cell = "=1.21.4"
rayon = "=1.12.0"
smallvec = "*"
tokio = { version = "*", features = ["macros", "rt-multi-thread", "sync"] }
