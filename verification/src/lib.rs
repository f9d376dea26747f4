//! deepLocal: the verified core of a local-first model runtime.

pub mod text;
pub mod paths;
pub mod model_ids;
pub mod documents;
pub mod stamps;
pub mod chat;
pub mod model;
pub mod keyed;
pub mod registry;
pub mod backends;
pub mod sorting;
pub mod huggingface;
pub mod hub_access;
pub mod requests;
pub mod downloads;
pub mod openai;
pub mod context;
pub mod embedding;
pub mod model_admin;
pub mod config;
pub mod ingest;
