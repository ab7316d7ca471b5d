[package]
name = "seq_logger"
version = "0.1.0"
edition = "2021"
publish = false

[dependencies]
# The calendar: the RFC 3339 text of an event's timestamp.
chrono = { version = "=0.4.45", default-features = false, features = ["std"] }
# The derives of the wire record's copy in app/.
serde = { version = "=1.0.229", features = ["derive"] }
# The JSON string literals of the wire record.
serde_json = "=1.0.154"
# The flush task and its timer in app/.
tokio = { version = "=1.54.1", features = ["rt-multi-thread", "time"] }
