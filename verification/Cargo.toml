[package]
name = "project_analyzer"
version = "0.1.0"
edition = "2021"
publish = false

[dependencies]
indexmap = "=1.9.3"
rustc_data_structures = "=0.1.2"
