//! Strategies at work: what each is told, and what becomes of what it asks for.
pub mod actor;
pub mod board;
pub mod laws;
pub mod records;
