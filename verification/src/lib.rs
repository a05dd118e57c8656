//! The decision core of a tool that tracks which lines of a repository were
//! written by AI agents.
pub mod copilot_otel;
pub mod display_laws;
pub mod fast_import;
pub mod fast_import_laws;
pub mod fast_import_reading;
pub mod json;
pub mod notes_api;
pub mod notes_laws;
pub mod notes_step_laws;
pub mod numbers;
pub mod paths;
pub mod query_laws;
pub mod span_event_laws;
pub mod span_laws;
pub mod step;
pub mod sweep_coordinator;
pub mod sweep_laws;
pub mod text;
pub mod text_map;
pub mod transcript;
pub mod value_laws;
