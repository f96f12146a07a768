//! An adapter that gives tool calls to models that know none: it tells the model in its
//! prompt how to call a tool, reads the calls off what the model writes, and answers by the
//! APIs that clients speak.
pub mod config;
pub mod error;
pub mod http;
pub mod ids;
pub mod json;
pub mod json_laws;
pub mod prompt_laws;
pub mod protocol;
pub mod protocol_laws;
pub mod providers;
pub mod responses_store;
pub mod store_laws;
pub mod table;
pub mod text;
pub mod text_laws;
pub mod types;
pub mod upstream;
pub mod views;
pub mod wire;
