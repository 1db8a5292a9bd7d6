[package]
name = "daily_set"
version = "0.1.0"
edition = "2021"
publish = false

[dependencies]
rand = "*"
rand_pcg = "*"
bytemuck = "*"
chrono = "*"
chrono-tz = "*"
