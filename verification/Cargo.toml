[package]
name = "rover"
version = "0.1.0"
edition = "2021"
publish = false

[dependencies]
anyhow = "=1.0.104"
embassy-futures = "=0.1.2"
embassy-time = { version = "=0.5.1", features = ["tick-hz-1_000_000"] }
embedded-svc = { version = "=0.29.0", features = ["std"] }
esp-backtrace = { version = "=0.19.0", features = ["esp32c3", "panic-handler", "println"] }
esp-bootloader-esp-idf = { version = "=0.5.0", features = ["esp32c3"] }
esp-hal = { version = "=1.1.2", features = ["esp32c3", "unstable"] }
esp-idf-svc = "=0.53.0"
esp-println = { version = "=0.17.0", features = ["esp32c3", "log-04"] }
esp-rtos = { version = "=0.3.0", features = ["esp32c3", "embassy"] }
log = "=0.4.35"
