[package]
name = "xmlreader"
version = "0.1.0"
edition = "2021"

[dependencies]
xmlparser = "0.13"
