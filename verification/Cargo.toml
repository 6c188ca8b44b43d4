[package]
name = "slatedb_objects"
version = "0.1.0"
edition = "2021"
publish = false

[dependencies]
async-trait = "*"
bytes = "*"
chrono = "*"
futures = "*"
log = "*"
object_store = { version = "0.13", default-features = false }
parking_lot = "*"
