[package]
name = "worklog"
version = "0.1.0"
edition = "2021"
publish = false

[dependencies]
chrono = "0.4"
cmd-args = "*"
colorful = "0.2"
home = "0.5"
rusqlite = "0.31"
