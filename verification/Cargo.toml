[package]
name = "event_graph"
version = "0.1.0"
edition = "2021"
publish = false

[dependencies]
neo4rs = "*"
serde = { version = "1", features = ["derive"] }
thiserror = "*"
dotenv = "*"
tokio = { version = "1", features = ["macros", "rt-multi-thread"] }
