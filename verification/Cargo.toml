[package]
name = "live_reload"
version = "0.1.0"
edition = "2021"
publish = false

[dependencies]
dotenv = "=0.15.0"
futures = "=0.3.34"
hyper = "=0.13.10"
log = "=0.4.34"
pretty_env_logger = "=0.4.0"
spielrs_diff = "=0.1.0"
tokio = { version = "=0.2.25", features = ["full"] }
warp = "=0.2.5"
