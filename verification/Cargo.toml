[package]
name = "midi_buttons"
version = "0.1.0"
edition = "2021"
publish = false

[dependencies]
actix-web = "*"
gpio-cdev = "*"
