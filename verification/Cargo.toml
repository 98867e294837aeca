[package]
name = "civil_protection"
version = "0.1.0"
edition = "2021"
publish = false

[dependencies]
clap = { version = "=4.6.7", features = ["derive"] }
lettre = { version = "=0.11.23", default-features = false, features = ["builder", "smtp-transport", "sendmail-transport", "rustls-tls"] }
log = "=0.4.34"
rpassword = "=7.5.4"
syslog = "=7.0.0"
