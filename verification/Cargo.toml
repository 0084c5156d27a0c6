[package]
name = "spikeling-os"
version = "0.1.0"
edition = "2021"
publish = false

[dependencies]
x86_64 = { version = "0.15", default-features = false, features = ["instructions"] }
noto-sans-mono-bitmap = { version = "0.3", default-features = false, features = ["regular", "size_16", "unicode-basic-latin", "unicode-latin-1-supplement", "unicode-specials"] }
pc-keyboard = "0.8"
bootloader_api = "0.11"
spin = "0.9"
lazy_static = { version = "1.5", features = ["spin_no_std"] }
linked_list_allocator = "0.10"
pic8259 = "0.11"
ovmf-prebuilt = "0.2"
