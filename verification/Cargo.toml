[package]
name = "os1"
version = "0.1.0"
edition = "2021"
publish = false

[dependencies]
allocator-api2 = "=0.2.21"
hashbrown = "=0.17.1"
