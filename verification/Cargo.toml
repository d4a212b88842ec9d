[package]
name = "spotclean"
version = "0.1.0"
edition = "2021"
publish = false

[dependencies]
redb = "=2.6.4"
serde = { version = "=1.0.229", features = ["derive"] }
serde_json = "=1.0.154"
log = "=0.4.35"
rustfft = "=6.4.1"
symphonia = { version = "=0.5.5", default-features = false }
tokio = { version = "=1.54.1", features = ["rt"] }
cursive = "=0.21.1"
librespot-core = { version = "=0.8.0", default-features = false, features = ["rustls-tls-webpki-roots"] }
librespot-audio = { version = "=0.8.0", default-features = false, features = ["rustls-tls-webpki-roots"] }
librespot-metadata = { version = "=0.8.0", default-features = false, features = ["rustls-tls-webpki-roots"] }
librespot-playback = { version = "=0.8.0", default-features = false, features = ["rustls-tls-webpki-roots"] }

[dev-dependencies]
# Holds the build script of librespot-core to a version that its other parts agree with.
vergen = { version = "=9.0.6", default-features = false }
