//! Indexes a source tree into chunks that can be searched by meaning, and
//! answers questions about it from the chunks that fit best.
//!
//! The library decides; it does not read files, talk to the backend or touch
//! the store. Its functions take what was read and say what is to be done.

pub mod boundaries;
pub mod byte_search;
pub mod chars;
pub mod text;
pub mod hashing;
pub mod json;

pub mod models;
pub mod project;
pub mod config;
pub mod chunker;
pub mod scanner;
pub mod embedder;
pub mod storage;
pub mod store_model;
pub mod search;
pub mod keywords;
pub mod rag;
pub mod indexing;
pub mod query;
pub mod ollama_client;

pub mod command_plan;
pub mod safety_policy;
pub mod session;
pub mod services;
pub mod telemetry;

pub mod chat;
pub mod assistant_config;
pub mod cache;
pub mod requests;
pub mod replies;
pub mod command_syntax;
pub mod cli;
pub mod system_info;
pub mod documents;
pub mod interaction;
