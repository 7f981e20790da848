//! A thread-safe, in-process publish/subscribe registry: listeners are
//! registered against named event kinds and receive every value emitted
//! for those kinds, synchronously, on the emitting thread.
pub mod emission;
pub mod emitter;
pub mod hub;
pub mod id;
pub mod laws;
pub mod listener;
pub mod registry;

pub use emission::{deliver, EmitError};
pub use emitter::{EventEmitter, EventHubBroadcaster, EventHubEmitter};
pub use hub::EventHub;
pub use id::ListenerId;
pub use listener::{Handler, Listener};
pub use registry::ListenerRegistry;
