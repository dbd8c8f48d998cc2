[package]
name = "sensor_bridge"
version = "0.1.0"
edition = "2021"
publish = false

[dependencies]
defmt = "=1.2.0"
defmt-rtt = "=1.3.1"
embassy-executor = "=0.9.1"
embassy-hal-internal = "=0.5.0"
embassy-stm32 = { version = "=0.6.0", features = ["stm32g031f6", "time-driver-any", "memory-x"] }
embassy-time = "=0.5.1"
panic-probe = "=1.0.0"
