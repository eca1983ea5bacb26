[package]
name = "widget_wiring"
version = "0.1.0"
edition = "2021"
publish = false

[dependencies]
bevy = { version = "=0.19.1", default-features = false }
bevy_hui = "=0.7.0"
bevy_hui_widgets = "=0.6.0"
