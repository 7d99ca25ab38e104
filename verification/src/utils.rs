//! Utility modules: HTTP error enrichment, JSON plumbing, directory shaping
//! for OpenAI-style backends, and tool-name helpers.

pub mod http;
pub mod json;
pub mod openai;
pub mod tool;
