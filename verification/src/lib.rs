//! Ranked, token-budgeted repository maps built from source tags.
pub mod error;
pub mod feedback;
pub mod grammar;
pub mod graph;
pub mod queries;
pub mod render;
pub mod tags;
pub mod text;
pub mod walk;
