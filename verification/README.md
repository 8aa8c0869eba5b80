# rs_events

An event system with verified bookkeeping. An `EventEmitter` keeps, for each
event name, the listeners registered to it; emitting an event runs their
callbacks and drops listeners whose call budget is used up.

Layout:

- `src/constants.rs` — `EventPayload` and the `Callback` handle (the only
  trusted type: it wraps the user's closure).
- `src/listener.rs` — the `Listener` used by the emitter: a callback and an
  optional call budget, an atomic counter shared by the listener and its clones.
- `src/threaded/listener.rs` — a tagged listener whose zero budget means
  "unlimited".
- `src/event_emitter.rs` — the emitter, its table model and the proofs that
  every operation keeps it consistent. The table is a vector of entries with
  unique names rather than a concurrent hash map: a map of an outside crate
  would need a specification name generic in the payload type, which cannot
  be written here. Emitters are therefore shared through `EventManager`
  (`Arc<EventEmitter<T>>`), not by cloning.
- `src/event_handler.rs` — the `EventHandler` trait the emitter implements.
- `src/properties.rs` — properties that span several operations.
- `src/error.rs` — `EventError`.
- `app/` — Tokio-based calls and asynchronous emission, and the `Display` /
  `Error` / `Debug` glue.
