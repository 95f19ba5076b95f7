[package]
name = "flashcard"
version = "0.1.0"
edition = "2021"
publish = false

[dependencies]
slotmap = "1"
iced = { version = "0.13", default-features = false, features = ["advanced", "tiny-skia"] }
iced_aw = { version = "0.12", default-features = false, features = ["card", "color_picker"] }
