[package]
name = "rl_examples"
version = "0.1.0"
edition = "2021"
publish = false

[dependencies]
rand = "0.8"
rand_distr = "0.4"
plotters = "0.3"
