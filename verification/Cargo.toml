[package]
name = "rmm2"
version = "0.1.0"
edition = "2021"
publish = false

[dependencies]
serde = { version = "=1.0.229", features = ["derive"] }
serde_derive = "=1.0.229"
toml = "=1.2.1"
termion = "=1.5.6"
tui = { version = "=0.19.0", default-features = false, features = ["termion"] }
viuer = { version = "=0.11.0", features = ["print-file"] }
xmltree = { version = "=0.12.0", features = ["attribute-order"] }
zip = { version = "=9.2.2", default-features = false, features = ["deflate"] }
