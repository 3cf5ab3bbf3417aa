[package]
name = "terraflow"
version = "0.1.0"
edition = "2021"
publish = false

[dependencies]
rand = "0.8"
delaunator = "*"
crossbeam = "0.8"
num_cpus = "*"
png = "*"
vec3 = "*"
