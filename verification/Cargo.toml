[package]
name = "segment_query"
version = "0.1.0"
edition = "2021"
publish = false

[dependencies]
fst = "0.3"
fst-levenshtein = "*"
failure = "0.1"
