[package]
name = "recipemd"
version = "0.1.0"
edition = "2021"
publish = false

[dependencies]
pulldown-cmark = "*"
pulldown-cmark-escape = "*"
serde = { version = "*", features = ["derive"] }
thiserror = "*"
miette = "*"
