[package]
name = "separations"
version = "0.1.0"
edition = "2021"
publish = false

[dependencies]
rstar = "*"
lcms2 = "*"
threadpool = "*"
num_cpus = "*"
unicase = "*"
