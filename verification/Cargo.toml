[package]
name = "apfmalloc"
version = "0.1.0"
edition = "2021"
publish = false

[dependencies]
gnuplot = "*"
libc = "0.2"
