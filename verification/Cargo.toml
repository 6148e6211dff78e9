[package]
name = "vis_averaging"
version = "0.1.0"
edition = "2021"
publish = false

[dependencies]
approx = "0.5"
erfa = "0.2"
itertools = "0.10"
ndarray = "0.16"
thiserror = "1"
