[package]
name = "snake_match"
version = "0.1.0"
edition = "2021"
publish = false

[dependencies]
bevy = { version = "=0.16.1", default-features = false, features = ["std", "bevy_state"] }
bevy_platform = "=0.16.1"
bevy_prng = { version = "=0.10.0", features = ["rand_chacha"] }
bevy_rand = { version = "=0.10.0", features = ["rand_chacha"] }
rand = "0.9"
