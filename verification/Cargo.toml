[package]
name = "handheld_core"
version = "0.1.0"
edition = "2021"
publish = false

[dependencies]
const-lru = "=1.0.0"
num-traits = { version = "=0.2.19", default-features = false }
display-interface = "=0.5.0"
embedded-hal = "=1.0.0"
embedded-sdmmc = "=0.8.2"
byte-slice-cast = { version = "=1.2.3", default-features = false }
