[package]
name = "wizard-editor"
version = "0.1.0"
edition = "2021"
publish = false

[dependencies]
uuid = { version = "1", features = ["v4"] }
ringbuf = "0.4"
egui = { version = "0.31", default-features = false }
eframe = { version = "0.31", default-features = false, features = ["wgpu", "x11"] }
egui-wgpu = { version = "0.31", default-features = false }
bytemuck = { version = "1", features = ["derive"] }
gstreamer = "0.23"
gstreamer-app = "0.23"
gstreamer-pbutils = "0.23"
gstreamer-video = "0.23"
image = { version = "0.25", default-features = false }
notify = "8"
