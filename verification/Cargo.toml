[package]
name = "jsonld"
version = "0.1.0"
edition = "2021"
publish = false

[dependencies]
iri-rs = "=3.4.1"
rdfx = "=0.23.2"
foldhash = "=0.2.0"
mediatype = "=0.23.0"
thiserror = "=2.0.21"
langtag = "=1.1.0"
serde_json = "=1.0.154"
