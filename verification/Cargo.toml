[package]
name = "sensor_sim"
version = "0.1.0"
edition = "2021"
publish = false

[dependencies]
rand = "=0.9.5"
rand_distr = "=0.5.1"
time = "=0.3.55"
clap = { version = "=4.6.7", features = ["derive"] }
rusqlite = { version = "=0.40.2", features = ["bundled"] }
