[package]
name = "lint_engine"
version = "0.1.0"
edition = "2021"
publish = false

[dependencies]
cargo_metadata = "=0.23.1"
ra-ap-rustc_lexer = "=0.178.0"
rustc_data_structures = "=0.1.2"
# The lexer checks at compile time that its Unicode tables are of the same
# Unicode version as those of unicode-ident; this is the release that agrees.
unicode-ident = "=1.0.22"
