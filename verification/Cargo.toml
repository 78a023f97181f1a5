[package]
name = "megaphone"
version = "0.1.0"
edition = "2021"
publish = false

[dependencies]
backtrace = "=0.3.76"
cadence = "=1.8.0"
diesel = { version = "=1.4.8", features = ["mysql", "r2d2"] }
diesel_migrations = "=1.4.0"
failure = "=0.1.8"
lazy_static = "1"
mozsvc-common = "=0.2.0"
regex = "1"
rocket = { version = "0.5", features = ["json"] }
sentry = { version = "=0.49.3", default-features = false }
sentry-slog = "=0.49.3"
serde = { version = "1", features = ["derive"] }
serde_json = "1"
slog = "=2.8.2"
slog-async = "=2.8.0"
slog-mozlog-json = "=0.1.0"
slog-term = "=2.9.2"
slog_derive = "=0.2.0"
thiserror = "1"
