[package]
name = "audio_capture"
version = "0.1.0"
edition = "2021"
publish = false

[dependencies]
anyhow = "1"
cidre = "0.11"
cpal = "0.15"
napi = { version = "2", default-features = false, features = ["napi4"] }
napi-derive = "2"
ringbuf = "0.4"
rubato = "0.15"
tracing = "0.1"
wasapi = "0.16"
