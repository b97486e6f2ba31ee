[package]
name = "duck_geocoder"
version = "0.1.0"
edition = "2021"
publish = false

[dependencies]
anyhow = "1"
arrow = { version = "*", default-features = false }
csv = "1"
encoding_rs = "0.8"
geo-traits = "*"
geo-types = "0.7"
geojson = "*"
parquet = { version = "*", default-features = false, features = ["arrow", "zstd"] }
proj = "*"
quick-xml = "*"
roxmltree = "*"
serde = { version = "1", features = ["derive"] }
serde_json = "1"
ureq = "3"
url = "2"
wkb = "*"
zip = { version = "*", default-features = false, features = ["deflate"] }
