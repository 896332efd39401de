[package]
name = "bum"
version = "0.1.0"
edition = "2021"
publish = false

[dependencies]
resp = "=0.4.0"
byteorder = "=1.5.0"
image = { version = "=0.24.9", default-features = false, features = ["jpeg", "png", "gif", "bmp"] }
mozjpeg = "=0.10.13"
walkdir = "=2.5.0"
time = "=0.1.45"
hyper = "=0.10.16"
regex = "=1.13.1"
queryst = "=3.0.0"
serde_json = "=1.0.154"
url = "=1.7.2"
argparse = "=0.2.2"
log = "=0.4.34"
simple_logger = "=5.2.0"
num_cpus = "=1.17.0"
scoped_threadpool = "=0.1.9"
lazy_static = "=1.5.1"
libc = "=0.2.191"
pledge = "=0.4.2"
gstreamer = "0.18"
