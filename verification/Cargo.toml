[package]
name = "authcore"
version = "0.1.0"
edition = "2021"
publish = false

[dependencies]
base64 = "0.13"
chrono = "0.4"
dotenv = "0.15"
easy_password = "*"
jsonwebtoken = "9"
rand = "0.8"
rouille = "3"
serde = "1"
serde_derive = "1"
validator = "0.16"
