//! The decision logic of a reverse proxy for OpenAI-compatible LLM backends.

pub mod auth;
pub mod config;
pub mod endpoints;
pub mod error;
pub mod gpu_set;
pub mod json;
pub mod model_laws;
pub mod model_scan;
pub mod models;
pub mod proxy;
pub mod query;
pub mod register;
pub mod routes;
pub mod scan_laws;
pub mod state;
pub mod text;
