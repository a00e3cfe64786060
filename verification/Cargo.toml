[package]
name = "bonsai"
version = "0.1.0"
edition = "2021"
publish = false

[dependencies]
ndarray = "=0.16.1"
rand = "=0.8.8"
time = "=0.1.45"
nalgebra = "=0.33.3"
glium = "=0.36.0"
ncurses = "=5.88.0"
http = "=1.5.0"
rustc-serialize = "=0.3.25"
