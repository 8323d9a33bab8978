[package]
name = "embedded_executor"
version = "0.3.0"
edition = "2021"
publish = false

[dependencies]
archery = "1"
cooked-waker = "5.0"
futures = "0.3"
generational-arena = "0.2"
lock_api = "0.4"
