[package]
name = "ivyterm"
version = "0.1.0"
edition = "2021"
publish = false

[dependencies]
async-channel = "*"
const_format = "*"
dirs = "*"
env_logger = "*"
glib = "*"
gtk4 = "*"
include_dir = "*"
libadwaita = "*"
log = "*"
nix = { version = "*", features = ["term", "process"] }
resvg = "*"
serde = { version = "1", features = ["derive"] }
thiserror = "*"
toml = "*"
unicode-segmentation = "*"
unicode-width = "*"
vmap = { version = "*", features = ["io"] }
vte4 = "*"
