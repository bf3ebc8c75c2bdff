[package]
name = "minecraft_timer"
version = "0.1.0"
edition = "2021"
publish = false

[dependencies]
regex = "1"
notify = "4"
dirs = "*"
gtk = "0.8"
gio = "0.8"
glib = "0.9"
