[package]
name = "weather_charts"
version = "0.1.0"
edition = "2021"
publish = false

[dependencies]
ab_glyph = "*"

[dev-dependencies]
png = "*"
chrono = "*"
