[package]
name = "forecasts"
version = "0.1.0"
edition = "2021"
publish = false

[dependencies]
chrono = "0.4"
petgraph = "0.6"
rand = "0.8"
rand_distr = "0.4"
serde = { version = "1", features = ["derive"] }
serde_yaml = "0.9"
serde_json = "1"
thiserror = "1"
tokio = { version = "1", features = ["macros", "rt-multi-thread", "fs"] }
reqwest = { version = "0.12", default-features = false, features = ["json"] }
async-trait = "0.1"
clap = { version = "4", features = ["derive"] }
clap_complete = "4"
plotters = "0.3"

[dev-dependencies]
