[package]
name = "ml_rust"
version = "0.1.0"
edition = "2021"
publish = false

[dependencies]
axum = { version = "=0.8.9", features = ["multipart"] }
axum_typed_multipart = "=0.16.8"
env_logger = "=0.11.11"
image = { version = "=0.25.10", default-features = false, features = ["jpeg", "png"] }
itertools = "=0.15.0"
nalgebra = "=0.35.0"
ndarray = "=0.16.1"
ort = { version = "=2.0.0-rc.9", default-features = false, features = ["ndarray", "load-dynamic"] }
# Never named in the code: ort asks for its native binding loosely, and only the
# binding of ort's own release builds with it; loaded at run time, not linked.
ort-sys = { version = "=2.0.0-rc.9", default-features = false, features = ["load-dynamic"] }
rayon = "=1.12.0"
serde = { version = "=1.0.229", features = ["derive"] }
tokenizers = { version = "=0.23.2", features = ["http"] }
tokio = { version = "=1.54.1", features = ["full"] }
toml = "=1.1.8"
utoipa = { version = "=6.0.0", features = ["axum_extras"] }
utoipa-swagger-ui = { version = "=10.0.2", features = ["axum", "vendored"] }
video-rs = { version = "=0.12.0", features = ["ndarray"] }
