[package]
name = "mdbook_confluence"
version = "0.1.0"
edition = "2021"
publish = false

[dependencies]
async-trait = "0.1"
colored = "=2.2.0"
env_logger = "=0.7.1"
futures = "0.3"
lazy_static = "1"
log = "0.4"
mdbook = { version = "=0.4.52", default-features = false }
mime_guess = "=2.0.5"
pulldown-cmark = "=0.10.3"
pulldown-cmark-to-cmark = "13"
regex = "=1.13.1"
semver = "=1.0.28"
serde = { version = "1", features = ["derive"] }
tokio = { version = "1", features = ["macros", "rt-multi-thread"] }
unicode-segmentation = "=1.13.3"
