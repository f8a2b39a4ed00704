//! Who may use the console: a password, a code of an authenticator, and sessions.
pub mod gatekeeper;
pub mod setup;
pub mod token;
pub mod totp;
