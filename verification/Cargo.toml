[package]
name = "ecs_game"
version = "0.1.0"
edition = "2021"
publish = false

[dependencies]
mio = "0.6"
rand = "0.8"
env_logger = "0.4"
