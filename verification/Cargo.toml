[package]
name = "ckjm_analyzer"
version = "0.1.0"
edition = "2021"
publish = false

[dependencies]
array_tool = "1"
itertools = "0.10"
clap = "2"
fs_extra = "1"
minidom = "*"
walkdir = "2"
