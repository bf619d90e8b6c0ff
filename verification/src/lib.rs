//! An HTTP-layer authorization guard: it routes each incoming request either into
//! an OAuth2 authorization-code flow against an identity provider or, once a
//! session cookie carries a token the provider accepts, through to a protected
//! downstream handler.
pub mod bytes;
pub mod percent;
pub mod query;
pub mod cookies;
pub mod http;
pub mod response;
pub mod urls;
pub mod requests;
pub mod provider;
pub mod api;
