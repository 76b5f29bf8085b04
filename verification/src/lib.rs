//! Dialogue orchestration for game entities talking to a language-model
//! backend: JSON extraction and repair from free-form model output, an
//! action registry with at-most-one-handler dispatch, on-demand context
//! gathering, and the queue-based request/response pipeline, all with
//! verified contracts.
mod json;

pub mod actions;
pub mod context;
pub mod dialogue;
pub mod laws;
pub mod models;
pub mod parse;
pub mod rag;
pub mod roundtrip;

pub use actions::json_get;
pub use json::Jv;
pub use json::JsonValue;
pub use json::jv_members_view;
pub use json::jv_seq_view;
pub use json::jv_view;
pub use json::parse_json;
pub use json::sp_parse_json;
pub use json::sp_print;
