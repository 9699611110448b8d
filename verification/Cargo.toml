[package]
name = "mdbook_tailwindcss"
version = "0.0.1"
edition = "2021"
publish = false

[dependencies]
clap = "=3.2.25"
mdbook = { version = "=0.4.52", default-features = false }
pulldown-cmark = { version = "=0.9.6", default-features = false }
pulldown-cmark-to-cmark = "=10.0.4"
serde_json = "=1.0.154"
tailwind-css = "=0.13.0"

[dev-dependencies]
tailwind-ast = "=0.4.1"
