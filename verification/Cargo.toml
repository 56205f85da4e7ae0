[package]
name = "discogs_xml_converter"
version = "0.1.0"
edition = "2021"
publish = false

[dependencies]
anyhow = "=1.0.104"
clap = { version = "=4.6.7", features = ["derive"] }
crossbeam-channel = "=0.5.17"
csv = "=1.4.0"
flate2 = "=1.1.10"
itoa = "=1.0.18"
log = "=0.4.35"
memchr = "=2.8.3"
postgres = "=0.19.14"
quick-xml = "=0.40.1"
rayon = "=1.12.0"
rusqlite = { version = "*", features = ["bundled"] }
wxyc-etl = "=0.6.0"
