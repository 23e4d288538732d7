[package]
name = "onewire_core"
version = "0.1.0"
edition = "2021"
publish = false

[dependencies]
debouncr = "=0.2.2"
one-wire-bus = "=0.1.1"
embedded-hal = "=0.2.7"
fugit = "0.3"
stm32f4xx-hal = { version = "0.16", features = ["stm32f411", "rtic"] }
cortex-m-rtic = "=1.1.4"
defmt = "0.3"
defmt-rtt = "=0.4.2"
panic-halt = "=0.2.0"
