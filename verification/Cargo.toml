[package]
name = "mqtt_codec"
version = "0.1.0"
edition = "2021"
publish = false

[dependencies]
bitfield = "0.13"
byteorder = "1"
