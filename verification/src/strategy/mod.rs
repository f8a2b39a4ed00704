//! The strategy: what it knows, what it decides, and what it asks for.
pub mod conduct;
pub mod course;
pub mod events;
pub mod laws;
pub mod levels;
pub mod machine;
pub mod quote;
pub mod risk;
pub mod rolling;
pub mod slots;
pub mod state;
pub mod wanted;
