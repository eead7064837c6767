[package]
name = "upkf"
version = "0.1.0"
edition = "2021"
publish = false

[dependencies]
byteorder = "1"
bzip2 = "*"
crc32fast = "1"
discord-rpc-client = "*"
json = "0.12"
libflate = "*"
lzma-rs = "*"
sha256 = "*"
