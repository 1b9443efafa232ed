//! Verified core of a local-first research agent: text and HTML handling,
//! URL encoding, JSON reading, LLM backend routing, the ReAct step machine,
//! memory ingestion bookkeeping and the pure parts of every tool.

pub mod text;
pub mod json;
pub mod backends;
pub mod research;
pub mod tools;
pub mod state;
pub mod agent;
pub mod memory;
