//! Pouch: a desktop shell that caches what a web page loads.
//!
//! The library holds the rules: what is cached under which key, what bypasses
//! the cache, which headers are replayed, what the configuration means and how
//! the windows are planned. Files, sockets and windows are the business of the
//! program around it.
pub mod bootstrap;
pub mod cache_store;
pub mod config;
pub mod dialog;
pub mod headers;
pub mod hook;
pub mod http_fetcher;
pub mod inject;
pub mod json;
pub mod migrate;
pub mod mitm;
pub mod recent_urls;
pub mod startup;
pub mod storage;
pub mod text;
pub mod updater;
pub mod urls;
pub mod util;
pub mod window;
