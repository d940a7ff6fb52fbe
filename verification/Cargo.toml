[package]
name = "geo_points"
version = "0.1.0"
edition = "2021"
publish = false

[dependencies]
rand = "0.8"
rayon = "1"
serde = { version = "1", features = ["derive"] }
serde_json = "1"
quick-xml = { version = "*", features = ["serialize"] }
geo = "*"
geojson = "*"
proj4rs = "*"
image = "*"
reqwest = { version = "*", default-features = false }
tokio = { version = "1", features = ["rt"] }
