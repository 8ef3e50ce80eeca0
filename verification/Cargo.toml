[package]
name = "rustocker"
version = "0.1.0"
edition = "2021"
publish = false

[dependencies]
ipnet = { version = "2", features = ["serde"] }
globset = "0.4"
rand = "0.10"
glob = "0.3"
walkdir = "2"
serde = { version = "1", features = ["derive"] }
serde_json = "1"
clap = { version = "4", features = ["derive"] }
tokio = { version = "1", features = ["full"] }
nix = { version = "0.30", features = ["fs", "mount", "sched", "signal", "process", "hostname", "term", "ioctl", "user"] }
oci-spec = "*"
oci-client = "*"
flate2 = "1"
tar = "0.4"
rtnetlink = "*"
futures = "0.3"
iptables = "*"
thiserror = "*"
is-root = "*"
getch-rs = "*"
crossterm = "*"
signal-hook = "*"
