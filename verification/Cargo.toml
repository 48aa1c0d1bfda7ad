[package]
name = "geoarrow"
version = "0.1.0"
edition = "2021"
publish = false

[dependencies]
rstar = "*"
geo = "*"
arrow2 = "*"
bumpalo = { version = "*", features = ["collections"] }
