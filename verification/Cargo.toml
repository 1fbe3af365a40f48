[package]
name = "esp_dma"
version = "0.1.0"
edition = "2021"
publish = false

[dependencies]
critical-section = "1"
linked_list_allocator = { version = "0.10", default-features = false }
embedded-dma = "0.2"
enumset = "1"
embassy-sync = "0.5"
