//! A bounded, lazily filled pool of reusable resources.
//!
//! The pool keeps `maxsize` slots. A caller checks a slot out, receives the
//! resource through a [`PooledConnection`], and checks it back in when done.
//! Slots are created empty and filled on demand through a [`Manager`], which
//! also probes the liveness of a resource when the configured check policy
//! says the last probe is too old.

pub mod error;
pub mod pool;
mod queue;
pub mod status;

pub use error::Error;
pub use error::Stage;
pub use pool::Builder;
pub use pool::Manager;
pub use pool::Pool;
pub use pool::PooledConnection;
pub use status::SlotState;
pub use status::State;
pub use status::Status;
