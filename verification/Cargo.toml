[package]
name = "rust_parser"
version = "0.1.0"
edition = "2021"
publish = false

[dependencies]
serde = "=1.0.229"
serde_json = "=1.0.151"
scraper = "=0.27.0"
swc_common = "=26.0.0"
swc_ecma_ast = "=29.0.2"
swc_ecma_parser = "=46.0.0"
quick-xml = "=0.42.0"
texting_robots = "=0.2.2"
url = "=2.5.8"
readability = "=0.3.0"
ureq = "=3.4.2"
reqwest = "=0.13.5"
tokio = { version = "=1.53.2", features = ["rt-multi-thread", "time"] }
futures = "=0.3.34"
