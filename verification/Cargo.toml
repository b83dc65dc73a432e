[package]
name = "ct_berry"
version = "0.1.0"
edition = "2021"
publish = false

[dependencies]
binary-heap-plus = "*"
ndarray = "*"
nifti = "*"
flate2 = "*"
dirs = "*"
num_cpus = "*"
