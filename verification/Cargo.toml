[package]
name = "protoc_plugin"
version = "0.1.0"
edition = "2021"
publish = false

[dependencies]
# Not used by this crate itself. `schematic_macros` 0.17, which `schematic` and
# with it `proto_pdk` build on, passes `with = "..."` to `darling` as a string, and
# `darling` 0.20.11 takes a path there and no string any more.
darling = "=0.20.10"
extism-pdk = "=1.4.1"
proto_pdk = "=0.25.5"
schematic = { version = "=0.17.11", default-features = false, features = ["schema"] }
serde = { version = "=1.0.229", features = ["derive"] }
