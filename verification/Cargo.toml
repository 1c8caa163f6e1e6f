[package]
name = "window_env_visual_control"
version = "0.1.0"
edition = "2021"
publish = false

[dependencies]
chrono = { version = "=0.4.45", features = ["serde"] }
log = "=0.4.34"
serde = { version = "=1.0.229", features = ["derive"] }
serde_json = "=1.0.151"
serde_yaml = "=0.9.34"
winapi = { version = "=0.3.9", features = ["winuser", "winreg", "winnt", "processenv", "winerror", "minwindef", "securitybaseapi", "processthreadsapi", "handleapi"] }
