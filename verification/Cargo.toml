[package]
name = "smartedit"
version = "0.1.0"
edition = "2021"
publish = false

[dependencies]
tree-sitter = "*"
tree-sitter-rust = "*"
tree-sitter-python = "*"
tree-sitter-go = "*"
tree-sitter-javascript = "*"
tree-sitter-typescript = "*"
tree-sitter-java = "*"
tree-sitter-scala = "*"
tree-sitter-kotlin-ng = "*"
tree-sitter-lua = "*"
regex = "*"
globset = "*"
walkdir = "*"
same-file = "*"
libc = "*"
