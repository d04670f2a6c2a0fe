[package]
name = "mention_pipeline"
version = "0.1.0"
edition = "2021"
publish = false

[dependencies]
grammers-client = "=0.7.0"
grammers-session = "=0.7.0"
tokio = { version = "=1.53.2", features = ["macros", "rt-multi-thread", "time"] }
log = "=0.4.34"
simple-logging = "=2.0.2"
dotenv = "=0.15.0"
