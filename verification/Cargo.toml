[package]
name = "talk_with_anyone"
version = "0.1.0"
edition = "2021"
publish = false

[dependencies]
embassy-executor = "=0.10.0"
embassy-futures = "=0.1.2"
embassy-net = { version = "=0.9.1", features = ["tcp", "udp", "dhcpv4", "medium-ethernet"] }
embassy-sync = "=0.8.0"
embassy-time = "=0.5.1"
esp-alloc = { version = "=0.10.0", features = ["esp32s3"] }
esp-backtrace = { version = "*", features = ["esp32s3", "panic-handler", "println"] }
esp-bootloader-esp-idf = { version = "*", features = ["esp32s3"] }
esp-hal = { version = "=1.1.2", features = ["esp32s3", "unstable"] }
esp-println = { version = "*", features = ["esp32s3"] }
esp-radio = { version = "=0.18.0", features = ["esp32s3", "wifi", "unstable"] }
esp-rtos = { version = "=0.3.0", features = ["esp32s3", "embassy", "esp-radio", "esp-alloc"] }
heapless = "=0.8.0"
libm = "=0.2.16"
lovyangfx-fonts = { version = "=0.2.0", default-features = false, features = ["efont-cn-14"] }
static_cell = "=2.1.1"
