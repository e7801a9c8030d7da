[package]
name = "medienzeit"
version = "0.1.0"
edition = "2021"
publish = false

[dependencies]
heapless = "=0.8.0"
md-5 = "=0.10.6"
u8g2-fonts = "=0.8.0"
embedded-graphics = "=0.8.2"
embedded-graphics-simulator = "=0.8.0"
embedded-hal = "=1.0.0"
embedded-hal-bus = "=0.3.0"
embedded-storage = "=0.3.2"
embedded-io-async = "=0.7.0"
epd-waveshare = "=0.6.0"
es8311 = "=0.1.1"
embassy-executor = "=0.10.0"
embassy-futures = "=0.1.2"
embassy-net = { version = "=0.9.1", features = ["tcp", "udp", "dns", "dhcpv4", "medium-ethernet"] }
embassy-sync = "=0.8.0"
embassy-time = "=0.5.1"
embedded-tls = "=0.19.0"
rand_core = "=0.6.4"
static_cell = "=2.1.1"
