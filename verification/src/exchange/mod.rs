//! The venues: where they are, what they are asked, and what they say.
pub mod account;
pub mod asking;
pub mod binance;
pub mod calls;
pub mod gate;
pub mod gate_trade;
pub mod lane;
pub mod reading;
pub mod session;
pub mod sign;
pub mod venue;
