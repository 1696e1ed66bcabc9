[package]
name = "monoio_http"
version = "0.1.0"
edition = "2021"
publish = false

[dependencies]
bytes = "=1.12.1"
http = "=0.2.12"
httparse = "=1.10.1"
memchr = "=2.8.3"
flate2 = "=1.1.10"
brotli = "=9.1.1"
cookie = { version = "=0.18.2", features = ["percent-encode"] }
serde_urlencoded = "=0.7.1"
serde = "=1.0.229"
serde_json = "=1.0.154"
thiserror = "=1.0.69"
mime = "=0.3.17"
smallvec = "=1.16.4"
smol_str = "=0.2.2"
monoio = "=0.2.4"
monoio-codec = "=0.3.4"
monoio-compat = "=0.2.2"
local-sync = "=0.1.1"
futures-core = "=0.3.34"
multer = "=2.1.0"
tracing = "=0.1.44"
rustls = "=0.21.12"
webpki-roots = "=0.25.4"
monoio-rustls = "=0.3.0"
