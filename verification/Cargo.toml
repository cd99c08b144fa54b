[package]
name = "histogram_core"
version = "0.1.0"
edition = "2021"
publish = false

[dependencies]
csv = "1"
plotters = { version = "0.3", default-features = false, features = ["bitmap_backend", "bitmap_encoder", "ab_glyph", "all_series", "all_elements"] }
rand = "0.9"
rand_distr = "0.5"
reqwest = { version = "0.12", default-features = false, features = ["blocking"] }
