//! Plain data that every other module shares.
pub mod action;
pub mod book;
pub mod decimal;
pub mod double;
pub mod event;
pub mod ids;
pub mod instrument;
pub mod num;
pub mod order;
pub mod position;
pub mod snapshot;
pub mod time;
