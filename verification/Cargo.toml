[package]
name = "generational_vector"
version = "0.3.0"
edition = "2021"

[dependencies]
num-traits = "0.2"
smallvec = "1"
tinyvec = { version = "1", features = ["alloc"] }
