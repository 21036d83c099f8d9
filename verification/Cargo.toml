[package]
name = "simon_robot"
version = "0.1.0"
edition = "2021"
publish = false

[dependencies]
linux-embedded-hal = "*"
pwm-pca9685 = "*"
