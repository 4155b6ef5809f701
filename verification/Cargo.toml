[package]
name = "keyline_design"
version = "0.1.0"
edition = "2021"
publish = false

[dependencies]
cavalier_contours = "*"
notify = "*"
yaserde = "*"
yaserde_derive = "*"
