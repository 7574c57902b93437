[package]
name = "git_worktree"
version = "0.1.0"
edition = "2021"
publish = false

[dependencies]
anyhow = "1"
fs-err = "3"

[dev-dependencies]
tempfile = "3"
