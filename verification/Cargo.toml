[package]
name = "chrusty"
version = "0.1.0"
edition = "2021"
publish = false

[dependencies]
cozy-chess = "=0.3.4"
arrayvec = "=0.7.8"
shakmaty = "=0.27.3"
rustyline = "=15.0.0"
rand = "=0.9.5"
pyrrhic-rs = "=0.2.0"
sfbinpack = "=0.6.5"
