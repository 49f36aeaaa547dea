[package]
name = "coro_engine"
version = "0.1.0"
edition = "2021"
publish = false

[dependencies]
crossbeam-deque = "0.8"
num_cpus = "1"
rand = "0.8"
