//! Compose LLM system prompts from named sections with ordering and
//! conditional inclusion.
pub mod model;
pub mod order;
pub mod seq_facts;
pub mod builder;
pub mod laws;

pub use builder::ContextBuilder;
