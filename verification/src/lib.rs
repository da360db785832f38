//! A certificate-expiry observatory: discovers X.509 certificates across
//! secret stores and TLS endpoints, keeps one entry per certificate in a
//! cache, and says which of them are about to expire.

pub mod auth;
pub mod backends;
pub mod cache;
pub mod certificate;
pub mod client;
pub mod clock;
pub mod config;
pub mod duration;
pub mod engine;
pub mod entries;
pub mod error;
pub mod ident;
pub mod notifications;
pub mod scheduler;
pub mod server;
pub mod storage;
pub mod text;
pub mod types;
pub mod version;

pub use error::DoomsdayError;
