[package]
name = "wene"
version = "0.1.0"
edition = "2021"
publish = false

[dependencies]
dispatch2 = "*"
lexical-sort = "*"
objc2 = "*"
objc2-app-kit = "*"
objc2-core-foundation = "*"
objc2-core-graphics = "*"
objc2-foundation = "*"
objc2-image-io = "*"
