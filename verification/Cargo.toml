[package]
name = "stenoswitch"
version = "0.1.0"
edition = "2021"
publish = false

[dependencies]
gpio-cdev = "*"
spidev = "*"
spin_sleep = "*"
nix = { version = "*", features = ["poll", "time"] }
usb-gadget = "*"
sd-notify = "*"
systemd-journal-logger = "*"
log = "*"
ctrlc = "*"
serialport = { version = "*", default-features = false }
virtual-serialport = "*"
thiserror = "*"
