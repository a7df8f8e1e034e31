[package]
name = "pg_s2"
version = "0.1.0"
edition = "2021"
publish = false

[dependencies]
s2 = "=0.2.0"
pgrx = "=0.16.1"
