[package]
name = "integer_digits"
version = "0.1.0"
edition = "2021"
publish = false

[dependencies]
rug = { version = "=1.19.2", default-features = false, features = ["integer", "rand"] }
# rug's binding to GMP. It is named here only to switch on `use-system-libs`,
# so that the GMP installed on the system is linked and none is built from
# source. The library calls nothing of it directly.
gmp-mpfr-sys = { version = "=1.5.3", default-features = false, features = ["use-system-libs"] }
serde = "=1.0.229"

[dev-dependencies]
bincode = "=1.3.3"
serde_json = "=1.0.154"
