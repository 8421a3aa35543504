[package]
name = "spi_dma_display"
version = "0.1.0"
edition = "2021"
publish = false

[dependencies]
byte-slice-cast = "1"
num-traits = "0.2"
display-interface = "0.5"
embedded-hal = "0.2"
embedded-graphics = "0.8"
mipidsi = "0.8"
esp-hal = { version = "0.21", features = ["esp32s3"] }
esp-backtrace = { version = "0.14", features = ["esp32s3", "panic-handler", "exception-handler", "println"] }
esp-println = { version = "0.12", features = ["esp32s3", "log"] }
