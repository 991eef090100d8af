[package]
name = "stream_db"
version = "0.1.0"
edition = "2021"
publish = false

[dependencies]
foldhash = "=0.2.0"
hashbrown = "=0.17.1"
rand = "=0.9.5"
