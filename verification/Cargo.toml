[package]
name = "led_httpd"
version = "0.1.0"
edition = "2021"
publish = false

[dependencies]
heapless = "=0.8.0"
httparse = { version = "=1.10.1", default-features = false }
smoltcp = { version = "=0.12.0", default-features = false, features = ["std", "medium-ethernet", "medium-ip", "proto-ipv4", "socket-tcp", "socket-dhcpv4"] }
esp-alloc = "=0.9.0"
esp-backtrace = { version = "=0.20.0", features = ["esp32c6", "panic-handler", "println"] }
esp-bootloader-esp-idf = { version = "=0.6.0", features = ["esp32c6"] }
esp-hal = { version = "=1.2.2", features = ["esp32c6", "unstable"] }
esp-println = { version = "=0.18.0", features = ["esp32c6"] }
esp-radio = { version = "=0.17.0", features = ["esp32c6", "wifi", "smoltcp"] }
esp-rtos = { version = "=0.4.0", features = ["esp32c6"] }
