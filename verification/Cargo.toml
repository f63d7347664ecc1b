[package]
name = "rusty_gallery"
version = "0.1.0"
edition = "2021"
publish = false

[dependencies]
image = { version = "0.25", default-features = false, features = ["jpeg", "png", "gif", "webp", "bmp", "tiff"] }
objc2-foundation = { version = "0.3", features = ["NSFileManager", "NSString", "NSURL", "NSError"] }
tray-icon = "0.21"
