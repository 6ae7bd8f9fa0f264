[package]
name = "nc2mongo"
version = "0.1.0"
edition = "2021"
publish = false

[dependencies]
netcdf = "*"
mongodb = "*"
bson = "*"
tokio = { version = "*", features = ["macros", "rt-multi-thread"] }
serde = { version = "*", features = ["derive"] }
serde_json = "*"
