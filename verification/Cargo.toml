[package]
name = "stegascan"
version = "0.1.0"
edition = "2021"
publish = false

[dependencies]
binwalk = "*"
image = "*"
rustfft = "*"
symphonia = "*"
kamadak-exif = "*"
id3 = "*"
infer = "*"
chrono = "*"
serde = { version = "*", features = ["derive"] }
serde_json = "*"
encoding_rs = "*"
quick-xml = "*"
zip = "*"
pdf-extract = "*"
docx-rs = "*"
ffmpeg-next = "*"
