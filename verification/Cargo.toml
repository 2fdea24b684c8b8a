[package]
name = "soundcalc"
version = "0.1.0"
edition = "2021"
publish = false

[dependencies]
hound = "3"
num = "0.4"
rand = "0.8"
thiserror = "1"
