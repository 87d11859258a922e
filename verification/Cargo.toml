[package]
name = "dblp"
version = "0.1.0"
edition = "2021"
publish = false

[dependencies]
regex = "*"
chrono = { version = "*", features = ["serde"] }
quick-xml = { version = "*", features = ["serialize"] }
serde = { version = "*", features = ["derive"] }
rusqlite = "*"
r2d2 = "*"
r2d2_sqlite = "*"
csv = "*"
flate2 = "*"
rayon = "*"
num_cpus = "*"
scheduled-thread-pool = "*"
