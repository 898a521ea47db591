[package]
name = "dsp_test"
version = "0.1.0"
edition = "2021"
publish = false

[dependencies]
serde_json = "=1.0.154"
hound = "=3.5.1"
jack = "=0.13.5"
rouille = "=3.6.2"
log = "=0.4.35"
esp-hal = { version = "=1.2.2", features = ["esp32s3", "unstable"] }
esp-println = { version = "*", features = ["esp32s3", "log-04"] }
esp-alloc = "*"
esp-bootloader-esp-idf = { version = "*", features = ["esp32s3"] }
