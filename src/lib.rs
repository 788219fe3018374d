//! Needle-grouped fuzzy matching and score composition for completion candidates.
pub mod fuzzy;
pub mod laws;
pub mod matcher;
pub mod text;
pub mod types;
