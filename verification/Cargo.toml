[package]
name = "sparkpass"
version = "0.1.0"
edition = "2021"
publish = false

[dependencies]
openssl = "0.10"
base64 = "0.13"
levenshtein = "1"
csv = "1"
argparse = "0.2"
rpassword = "7"
