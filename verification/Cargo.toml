[package]
name = "transit_net"
version = "0.1.0"
edition = "2021"
publish = false

[dependencies]
fastrand = "=2.5.0"
flo_curves = "=0.8.1"
gnuplot = "=0.0.46"
ndarray = "=0.15.6"
num-traits = "=0.2.19"
petgraph = "=0.8.3"
rand = "=0.8.8"
rand_distr = "=0.4.3"
serde = { version = "=1.0.229", features = ["derive"] }
serde_json = "=1.0.154"
serde_yaml = "=0.9.34"
simplegraph = "=0.2.2"
structopt = "=0.3.26"
