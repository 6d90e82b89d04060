//! The state of one incoming web request, and everything that is decided from it.
pub mod text;
pub mod encoding;
pub mod header;
pub mod media_type;
pub mod accept;
pub mod uri;
pub mod host;
pub mod ip;
pub mod method;
pub mod cookies;
pub mod connection;
pub mod form;
pub mod proxy;
pub mod rocket;
pub mod cells;
pub mod wire;
pub mod error;
pub mod request;
pub mod laws;
