[package]
name = "perl_literal"
version = "0.1.0"
edition = "2021"
publish = false

[dependencies]
itoa = "1"
nom = "7"
ryu = "1"
serde = { version = "1", features = ["derive"] }
thiserror = "1"
