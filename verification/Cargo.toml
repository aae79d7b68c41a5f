[package]
name = "springchick"
version = "0.1.0"
edition = "2021"
publish = false

[dependencies]
png = "=0.17.16"
smithay = { version = "=0.7.0", default-features = false, features = ["wayland_frontend"] }
calloop = "*"
dbus = { version = "=0.9.12", features = ["vendored"] }
rustix = { version = "*", features = ["event", "fs"] }
sd-notify = "*"
tracing = "*"
tracing-subscriber = { version = "*", features = ["env-filter"] }
