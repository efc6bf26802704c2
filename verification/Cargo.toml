[package]
name = "portage-repo"
version = "0.1.0"
edition = "2021"
publish = false

[dependencies]
brush-builtins = "*"
brush-core = "*"
brush-parser = "*"
camino = "*"
clap = { version = "*", features = ["derive"] }
gentoo-core = "*"
itertools = "*"
jwalk = "*"
lasso = { version = "*", features = ["multi-threaded"] }
md5 = "*"
papaya = "*"
portage-atom = "*"
portage-metadata = "*"
tokio = { version = "*", features = ["rt-multi-thread", "macros"] }
