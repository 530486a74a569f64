[package]
name = "roper"
version = "0.1.0"
edition = "2021"
publish = false

[dependencies]
rand = "=0.8.8"
rand_isaac = "=0.3.0"
capstone = "=0.14.0"
goblin = "=0.10.7"
rust-ini = "=0.21.3"
