//! A report-rendering service's verified core: a live configuration
//! store that republishes operator-edited settings without ever
//! showing a reader a torn or regressed snapshot, and a theme
//! resolver that assembles the document compiler's input under a
//! skip-and-log policy for missing assets.

pub mod api;
pub mod auth;
pub mod client_config;
pub mod config;
pub mod error;
pub mod extractor;
pub mod json;
pub mod loader;
pub mod server;
pub mod store;
pub mod typst_lib;
pub mod value;
pub mod watch;
