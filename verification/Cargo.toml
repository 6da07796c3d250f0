[package]
name = "hdiff"
version = "0.1.0"
edition = "2021"
publish = false

[dependencies]
diff = "0.1"
image = { version = "0.24", default-features = false }
num-traits = "0.2"
