[package]
name = "mprovision"
version = "0.1.0"
edition = "2021"
publish = false

[dependencies]
memchr = "=2.8.3"
plist = { version = "=1.10.3", features = ["enable_unstable_features_that_may_break_with_minor_version_bumps"] }
rayon = "=1.12.0"
clap = { version = "=4.6.7", features = ["derive"] }
colored = "=3.1.1"
dirs = "=7.0.0"
main_error = "=0.1.2"
time = { version = "=0.3.55", features = ["macros", "formatting"] }
trash = "=5.2.9"
zip = { version = "=9.1.0", default-features = false, features = ["deflate"] }
