[package]
name = "hc_lib_ranking_index"
version = "0.1.0"
edition = "2021"
publish = false

[dependencies]
hdk = "=0.7.0"
hdi = "=0.8.0"
holochain_serialized_bytes = "=0.0.57"
serde = "=1.0.228"
