[package]
name = "cassandra_query"
version = "0.1.0"
edition = "2021"
publish = false

[dependencies]
uuid = "1"
chrono = "0.4"
tokio = { version = "1", features = ["rt"] }
cassandra-cpp = "=3.0.2"
nu-plugin = "=0.114.1"
nu-protocol = "=0.114.1"
