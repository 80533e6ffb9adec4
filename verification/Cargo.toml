[package]
name = "wxwork_robot"
version = "0.1.0"
edition = "2021"
publish = false

[dependencies]
quick-xml = "=0.17.2"
regex = "=1.13.1"
hex = "=0.4.3"
openssl = "=0.10.82"
actix-web = { version = "=4.18.1", default-features = false }
log = "=0.4.35"
