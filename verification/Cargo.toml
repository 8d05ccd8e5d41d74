[package]
name = "audioviz"
version = "0.1.0"
edition = "2021"
publish = false

[dependencies]
rand = "0.8"
cgmath = "0.16"
minifb = "0.19"
portaudio = "0.7"
sonogram = "0.4"
tch = "0.10"
