[package]
name = "romhack"
version = "0.1.0"
edition = "2021"
publish = false

[dependencies]
byteorder = "1"
encoding_rs = "0.8"
goblin = "0.0"
regex = "1"
rustc-demangle = "0.1"
syn = "0.14"
serde = { version = "1", features = ["derive"] }
toml = "0.4"
structopt = "0.2"
libm = "0.2"
