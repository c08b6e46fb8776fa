[package]
name = "audio_stream"
version = "0.1.0"
edition = "2021"
publish = false

[dependencies]
crossbeam = "0.8"
spectrum-analyzer = "1"
cpal = "0.15"
sdl2 = "0.37"
ffmpeg-next = "7"
ffmpeg-sys-next = "7"
log = "0.4"
log-panics = "2"
tracing = "0.1"
tracing-subscriber = "0.3"
chrono = "0.4"
