[package]
name = "maptime"
version = "0.1.0"
edition = "2021"
publish = false

[dependencies]
hex = "=0.4.3"
chrono = "=0.4.45"
serde = "=1.0.229"
serde_derive = "=1.0.229"
serde_json = "1"
parse_list = "=2.0.0"
gnuplot = "=0.0.46"
