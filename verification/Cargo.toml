[package]
name = "odds_converter"
version = "0.1.0"
edition = "2021"

[dependencies]
num-integer = "0.1"
