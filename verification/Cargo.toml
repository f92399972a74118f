[package]
name = "dle_bot"
version = "0.1.0"
edition = "2021"
publish = false

[dependencies]
async-trait = "=0.1.92"
base64 = "=0.22.1"
chrono = { version = "=0.4.45", default-features = false, features = ["clock", "std"] }
dotenvy = "=0.15.7"
dptree = "=0.3.0"
log = "=0.4.34"
png = "=0.17.16"
pretty_env_logger = "=0.5.0"
rand = "=0.8.8"
reqwest = { version = "=0.11.27", default-features = false, features = ["rustls-tls"] }
resvg = { version = "=0.35.0", default-features = false, features = ["memmap-fonts", "text"] }
sea-orm = { version = "=0.12.15", default-features = false, features = ["macros", "runtime-tokio-rustls", "sqlx-postgres", "with-chrono"] }
sea-orm-migration = { version = "=0.12.15", default-features = false, features = ["runtime-tokio-rustls", "sqlx-postgres"] }
sea-query = "=0.30.7"
# Held at 0.1.1 for teloxide: 0.1.2 asks for a newer compiler than this crate is built with.
takecell = "=0.1.1"
teloxide = { version = "=0.13.0", default-features = false, features = ["ctrlc_handler", "macros", "rustls", "webhooks-axum"] }
tokio = { version = "=1.54.1", features = ["macros", "rt-multi-thread", "sync", "time"] }
usvg = { version = "=0.35.0", default-features = false, features = ["memmap-fonts", "text"] }

[dev-dependencies]
regex = "=1.13.1"
