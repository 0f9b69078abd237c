[package]
name = "display_distributor"
version = "0.1.0"
edition = "2021"
publish = false

[dependencies]
bincode = "1.3"
clap = { version = "4", features = ["derive"] }
dbus = "*"
drm = "*"
libc = "0.2"
log = "0.4"
nix = { version = "*", features = ["signal", "fs"] }
sendfd = "*"
serde = { version = "1", features = ["derive"] }
systemd-journal-logger = "*"
thiserror = "1"
udev = "*"
unix-cred = "*"
