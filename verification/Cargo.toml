[package]
name = "ndiff_rs"
version = "0.1.0"
edition = "2021"
publish = false

[dependencies]
chrono = "*"
clap = { version = "*", features = ["derive"] }
nmap_xml_parser = "*"
