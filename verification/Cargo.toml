[package]
name = "cargo_workspaces"
version = "0.1.0"
edition = "2021"
publish = false

[dependencies]
regex = "=1.13.1"
semver = "=0.11.0"
url = "=2.5.8"
glob = "=0.3.4"
globset = "=0.4.20"
indexmap = "=1.9.3"
toml_edit = "=0.19.15"
camino = "=1.2.6"
cargo_metadata = "=0.13.1"
clap = { version = "=3.2.25", features = ["derive", "wrap_help", "unstable-replace"] }
ctrlc = "=3.5.2"
dialoguer = "=0.12.0"
dunce = "=1.0.5"
# Not used directly: tame-index brings it in. Later releases need a newer
# compiler, so it is held at this one.
kstring = "=2.0.2"
oclif = "=0.4.0"
serde = { version = "=1.0.229", features = ["derive"] }
serde_json = "=1.0.154"
tame-index = { version = "=0.25.0", features = ["git", "sparse"] }
thiserror = "=1.0.69"
