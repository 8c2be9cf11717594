[package]
name = "nexus_core"
version = "0.1.0"
edition = "2021"
publish = false

[dependencies]
anyhow = "=1.0.104"
axum = { version = "=0.7.9", features = ["ws"] }
base64 = "=0.22.1"
lightningcss = { version = "=1.0.0-alpha.72", default-features = false }
mime_guess = "=2.0.5"
napi = "=2.16.17"
napi-derive = "=2.16.13"
notify = "=6.1.1"
oxc-browserslist = "=2.0.0"
oxc_allocator = "=0.54.0"
oxc_ast = "=0.54.0"
oxc_codegen = "=0.54.0"
oxc_parser = "=0.54.0"
oxc_resolver = "=11.24.3"
oxc_semantic = "=0.54.0"
oxc_span = "=0.54.0"
oxc_transformer = "=0.54.0"
serde_json = "=1.0.154"
sled = "=0.34.7"
tokio = { version = "=1.54.1", features = ["full"] }
tower = { version = "=0.4.13", features = ["util"] }
tower-http = { version = "=0.5.2", features = ["fs", "trace"] }
tracing = "=0.1.44"
tracing-subscriber = { version = "=0.3.23", features = ["env-filter"] }
urlencoding = "=2.1.3"
