//! Reference-price grid market making for stock perpetuals.
pub mod auth;
pub mod codec;
pub mod config;
pub mod engine;
pub mod exchange;
pub mod json;
pub mod marketdata;
pub mod risk;
pub mod store;
pub mod strategy;
pub mod table;
pub mod text;
pub mod types;
