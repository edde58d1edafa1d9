[package]
name = "small_black_box"
version = "0.1.0"
edition = "2021"
publish = false

[dependencies]
bt-hci = "0.2"
chrono = { version = "0.4", default-features = false }
defmt = "0.3"
embassy-embedded-hal = "0.3"
embassy-executor = "0.7"
embassy-futures = "0.1"
embassy-sync = "0.6"
embassy-time = "0.4"
embedded-graphics = "0.8"
esp-alloc = "0.7"
esp-backtrace = { version = "0.15", features = ["esp32s3", "panic-handler", "println"] }
esp-hal = { version = "1.0.0-beta.0", features = ["esp32s3", "unstable"] }
esp-hal-embassy = { version = "0.7", features = ["esp32s3"] }
esp-println = { version = "0.13", features = ["esp32s3"] }
esp-wifi = { version = "0.13", features = ["esp32s3", "ble"] }
heapless = "0.8"
lora-phy = "3"
ssd1306 = "0.9"
static_cell = "2"
trouble-host = "0.1"

[dev-dependencies]
critical-section = { version = "1", features = ["std"] }
