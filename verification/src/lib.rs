//! An event system: an [`EventEmitter`] keeps, for every event name, the list of
//! [`Listener`]s registered to it, and runs their callbacks when the event is
//! emitted. Listeners may be unlimited, limited to a number of emissions, or
//! one-shot; a listener that has used up its emissions is dropped by the emitter.

mod constants;
mod error;
pub mod event_emitter;
pub mod event_handler;
pub mod listener;
pub mod properties;
pub mod threaded;

pub use crate::constants::{Callback, EventPayload};
pub use crate::error::EventError;
pub use crate::event_emitter::{EventEmitter, EventManager};
pub use crate::event_handler::EventHandler;
pub use crate::listener::Listener;
