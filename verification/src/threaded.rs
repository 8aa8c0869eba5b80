//! The listener flavour with an optional tag and an unlimited reading of a zero limit.

pub mod listener;

pub use self::listener::Listener;

