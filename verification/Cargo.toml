[package]
name = "mesh_ripper"
version = "0.1.0"
edition = "2021"
publish = false

[dependencies]
alphanumeric-sort = "=1.5.8"
rand = "=0.8.8"
nalgebra = "=0.32.6"
glob = "=0.3.4"
walkdir = "=2.5.0"
glam = "0.13"
mint = "0.5"
parry3d = "0.7"
rapier3d = "0.11"
ron = "0.6"
serde = { version = "1", features = ["derive"] }
structopt = "0.3"
