[package]
name = "hermes_ru"
version = "0.1.0"
edition = "2021"
publish = false

[dependencies]
chrono = "0.4"
hostname = "0.3"
pest = "2"
rand = "0.8"
random-string = "1"
