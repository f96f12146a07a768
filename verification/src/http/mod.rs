//! What the server does with requests, without the network.
pub mod auth;
pub mod browser;
pub mod browser_laws;
pub mod codex;
pub mod codex_laws;
pub mod routes;
pub mod routes_laws;
pub mod setup_laws;
pub mod sse;
