[package]
name = "rustle"
version = "0.1.0"
edition = "2021"
publish = false

[dependencies]
directories = "6.0.0"
egui = { version = "0.37.0", default-features = false, features = ["default_fonts"] }
futures = { version = "0.3.34", default-features = false, features = ["alloc"] }
image = { version = "0.25.10", default-features = false, features = ["png"] }
ipnet = "2.12.2"
libstrawberry = "1.4.4"
mdns-sd = "0.21.7"
serde = { version = "1.0.229", features = ["derive"] }
serde_yaml = "0.9.34"
shellexpand = "3.1.2"
stblib = "0.7.3"
tokio = { version = "1.54.1", default-features = false, features = ["rt-multi-thread", "macros", "time", "net", "io-util"] }
whoami = "2.1.3"
