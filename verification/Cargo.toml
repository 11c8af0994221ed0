[package]
name = "shuffle_seats"
version = "0.1.0"
edition = "2021"
publish = false

[dependencies]
color-eyre = "0.6"
crossterm = "0.27"
rand = "0.8"
ratatui = "0.27"
