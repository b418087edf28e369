[package]
name = "msgpack_codec"
version = "0.1.0"
edition = "2021"
publish = false

[dependencies]
byteorder = "1"
rmp = "0.8"
rmpv = "1"
futures = "0.3"
