[package]
name = "homer"
version = "0.1.0"
edition = "2021"
publish = false

[dependencies]
json = "0.12"
anyhow = "1"
chrono = "0.4"
crossbeam = "0.8"
log = "0.4"
serde = { version = "1", features = ["derive"] }
serde_json = "1"
embedded-graphics = "0.8"
profont = "0.7"
mipidsi = "0.7"
display-interface-spi = "0.4"
embedded-svc = "*"
esp-idf-hal = "*"
esp-idf-svc = "*"
esp-idf-sys = "*"
