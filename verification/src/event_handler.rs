use crate::constants::{Callback, EventPayload};
use crate::error::EventError;
use crate::listener::Listener;
use vstd::prelude::*;

verus! {

/// The operations of an event-driven component: registering listeners to
/// named events, removing them, and emitting events to them.
pub trait EventHandler<T>: Send + Sync {
    /// The number of listeners registered to the event named `event_name`.
    spec fn registered_count(&self, event_name: Seq<char>) -> nat;

    /// The names of the events that have at least one listener.
    fn event_names(&self) -> Vec<String>;

    /// Sets the most listeners per event.
    fn set_max_listeners(&mut self, max: usize);

    /// The most listeners per event.
    fn max_listeners(&self) -> usize;

    /// Adds a listener without limit to `event_name`.
    fn add_listener(&mut self, event_name: &str, callback: Callback<T>) -> Result<Listener<T>, EventError>;

    /// Adds a listener to `event_name` that may be called `limit` times (`0`: without limit).
    fn add_limited_listener(&mut self, event_name: &str, callback: Callback<T>, limit: u64) -> Result<Listener<T>, EventError>;

    /// Adds a listener to `event_name` that is called once.
    fn add_once(&mut self, event_name: &str, callback: Callback<T>) -> Result<Listener<T>, EventError>;

    /// Adds a listener to `event_name` that may be called `lifetime` times (`None`: without limit).
    fn add(&mut self, event_name: &str, lifetime: Option<u64>, callback: Callback<T>) -> Result<Listener<T>, EventError>;

    /// The number of listeners registered to `event_name`.
    fn listener_count(&self, event_name: &str) -> (count: usize)
        ensures
            count == self.registered_count(event_name@),
    ;

    /// Whether `event_name` has at least one listener.
    fn has_listener(&self, event_name: &str) -> (active: bool)
        ensures
            active == (self.registered_count(event_name@) > 0),
    {
        self.listener_count(event_name) > 0
    }

    /// Removes a listener from `event_name`.
    fn remove_listener(&mut self, event_name: &str, listener: &Listener<T>) -> Result<(), EventError>;

    /// Removes `event_name` with all its listeners.
    fn remove_all_listeners(&mut self, event_name: &str) -> Result<(), EventError>;

    /// Emits `event_name` to its listeners.
    fn emit(&mut self, event_name: &str, payload: EventPayload<T>) -> Result<(), EventError>;

    /// Emits `event_name` to its listeners for the last time and removes the event.
    fn emit_final(&mut self, event_name: &str, payload: EventPayload<T>) -> Result<(), EventError>;
}

} // verus!
