[package]
name = "mesh_laplace"
version = "0.1.0"
edition = "2021"
publish = false

[dependencies]
baby_shark = "*"
lox = "*"
nalgebra = "*"
num-traits = "*"
off-rs = "*"
