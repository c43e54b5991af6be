[package]
name = "sqlm"
version = "0.1.0"
edition = "2021"
publish = false

[dependencies]
chumsky = "=0.13.0"
heck = "=0.5.0"
proc-macro2 = "=1.0.107"
quote = "=1.0.47"
syn = { version = "=2.0.119", features = ["full"] }
tokio = { version = "=1.54.1", features = ["rt", "rt-multi-thread", "macros"] }
tokio-postgres = { version = "=0.7.18", features = ["with-serde_json-1", "with-time-0_3", "with-uuid-1"] }
deadpool-postgres = "=0.14.2"
dotenvy = "=0.15.7"
once_cell = "=1.21.4"
tracing = "=0.1.44"
rustls = { version = "=0.23.46", default-features = false, features = ["ring", "std", "tls12"] }
tokio-postgres-rustls = "=0.14.0"
serde_json = "=1.0.154"
time = "=0.3.55"
uuid = "=1.29.0"
pgvector = { version = "=0.4.2", features = ["postgres"] }
ariadne = "=0.6.0"
