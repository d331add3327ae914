[package]
name = "allsorts_tools"
version = "0.1.0"
edition = "2021"
publish = false

[dependencies]
allsorts = "*"
atty = "*"
encoding_rs = "*"
gumdrop = "*"
png = "*"
xmlwriter = "*"
