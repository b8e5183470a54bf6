[package]
name = "xmp"
version = "0.1.0"
edition = "2021"
publish = false

[dependencies]
minidom = "=0.15.2"
quick-xml = "=0.28.2"
img-parts = "=0.4.0"
kamadak-exif = "=0.6.1"
jfifdump = "=0.6.0"

[dev-dependencies]
chrono = "=0.4.45"
iso8601 = "=0.6.6"
