[package]
name = "lubix"
version = "0.1.0"
edition = "2021"
publish = false

[dependencies]
teloxide = "=0.12.2"
tokio = { version = "=1.53.2", features = ["rt-multi-thread", "macros"] }
reqwest = { version = "=0.11.27", features = ["json"] }
serde = { version = "=1.0.229", features = ["derive"] }
serde_json = "=1.0.151"
dotenv = "=0.15.0"
pretty_env_logger = "=0.5.0"
chrono = "=0.4.45"
# Transitive requirement of the chat transport, pinned to the one patch the
# toolchain here can compile; nothing names it directly.
takecell = "=0.1.1"
