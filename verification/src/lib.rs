//! Listing the models of an OpenAI-compatible endpoint: candidate URLs,
//! the fallback sequence over them, payload parsing and error messages.

pub mod errors;
pub mod fetch;
pub mod json;
pub mod models;
pub mod text;
pub mod urls;
