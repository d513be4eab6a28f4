[package]
name = "naginata"
version = "0.1.0"
edition = "2021"
publish = false

[dependencies]
embassy-executor = "=0.10.0"
embassy-futures = "=0.1.2"
embassy-rp = { version = "=0.10.0", features = ["rp2040", "time-driver", "critical-section-impl"] }
embassy-sync = "=0.8.0"
embassy-time = "=0.5.1"
embassy-usb = "=0.6.0"
embedded-io-async = "=0.7.0"
cortex-m = "=0.7.10"
smart-leds = "=0.4.0"
cyw43 = { version = "=0.7.0", features = ["bluetooth"] }
cyw43-pio = "=0.10.0"
cyw43-firmware = "=0.1.0"
trouble-host = { version = "=0.8.0", features = ["security"] }
bt-hci = "=0.10.1"
rand_core = "=0.6.4"
