[package]
name = "techou"
version = "0.1.0"
edition = "2021"
publish = false

[dependencies]
sha2 = "0.10"
pulldown-cmark = "0.9"
chrono = "0.4"
clap = "2"
tera = "1"
rss = "2"
serde = "1"
serde_derive = "1"
serde_json = "1"
toml = "0.5"
notify = "4"
crossbeam = "0.8"
rouille = "3"
syntect = "5"
elasticlunr-rs = "3"
ammonia = "3"
strsim = "0.10"
copy_dir = "0.1"
plist = "1"
rayon = "1"
sitemap = "0.4"
