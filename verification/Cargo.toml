[package]
name = "oxigraph"
version = "0.3.0"
edition = "2021"
publish = false

[dependencies]
siphasher = "=0.3.11"
rand = "=0.8.8"
oxiri = "=0.2.11"
rio_api = "=0.7.1"
rio_turtle = "=0.7.1"
rio_xml = "=0.7.3"
sophia_api = "=0.7.2"
spargebra = { version = "=0.2.8", features = ["rdf-star"] }
