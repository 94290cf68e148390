[package]
name = "kanban"
version = "0.1.0"
edition = "2021"
publish = false

[dependencies]
uuid = { version = "1", features = ["v4"] }
rocket = { version = "0.5", features = ["json"] }
diesel = { version = "2", features = ["postgres", "r2d2", "chrono"] }
diesel-derive-enum = { version = "2", features = ["postgres"] }
chrono = "0.4"
serde = { version = "1", features = ["derive"] }
dotenv = "0.15"
log = "0.4"
fern = "0.6"
