[package]
name = "amber"
version = "0.1.0"
edition = "2021"
publish = false

[dependencies]
crossbeam = "0.8"
ctrlc = "3"
dirs = "*"
getch = "*"
ignore = "0.4"
lazy_static = "1"
memmap = "0.7"
num_cpus = "1"
regex = "1"
scoped_threadpool = "0.1"
serde = { version = "1", features = ["derive"] }
structopt = "0.3"
tempfile = "3"
term = "0.7"
termios = "0.3"
toml = "0.5"
