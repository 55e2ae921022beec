[package]
name = "bit_torrent_rustico"
version = "0.1.0"
edition = "2021"
publish = false

[dependencies]
sha1 = "*"
chrono = "*"
