[package]
name = "prose_shell"
version = "0.1.0"
edition = "2021"
publish = false

[dependencies]
jid = "=0.12.3"
minidom = "=0.19.0"
percent-encoding = "=2.3.2"
tokio = { version = "=1.53.2", features = ["full"] }
tokio-xmpp = { version = "=6.0.0", default-features = false, features = ["starttls", "ring", "rustls-native-certs"] }
futures = "=0.3.34"
xso = "=0.4.0"
