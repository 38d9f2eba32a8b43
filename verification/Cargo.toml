[package]
name = "ansimoe"
version = "0.1.0"
edition = "2021"
publish = false

[dependencies]
anyhow = "=1.0.104"
arrayvec = "=0.7.8"
byteorder = "=1.5.0"
clap = { version = "=4.6.7", features = ["derive"] }
crossterm = "=0.29.0"
ffmpeg-the-third = "=6.0.0"
humansize = "=2.1.3"
image = { version = "=0.25.10", default-features = false }
integer-encoding = "=4.1.0"
itoa = "=1.0.18"
kasi-kule = "=0.3.4"
lab = "=0.11.0"
litemap = "=0.8.3"
lz4_flex = "=0.14.0"
parking_lot = "=0.12.5"
parse-size = "=1.1.0"
prettypretty = "=0.12.0"
prettytty = "=0.3.0"
rasn = "=0.29.0"
rayon = "=1.12.0"
spin_sleep = "=1.3.3"
stable-vec = "=0.4.3"
tempfile = "=3.27.0"
textwrap = "=0.16.4"
thingbuf = "=0.1.6"
zstd = "=0.14.3"

[dev-dependencies]
tinyrand = "=0.5.0"
