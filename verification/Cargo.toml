[package]
name = "oxidize_docx_core"
version = "0.2.0"
edition = "2021"
publish = false

[dependencies]
quick-xml = "=0.37.5"
thiserror = "=2.0.21"
zip = { version = "=2.6.1", default-features = false, features = ["deflate"] }
