//! Turns traced spans and events into Windows ETW TraceLogging events.
//!
//! [`TracelogSubscriber`] holds the settings and says, for each span and event,
//! which ETW event to write: its header, the activity it belongs to, and its
//! bytes. Registering with ETW and writing the events is left to the caller.

pub mod activity_id;
pub mod deferred_values;
mod etw;
pub mod event_writer;
pub mod field;
pub mod keyword;
pub mod laws;
pub mod reading;
pub mod subscriber;
pub mod text;
pub mod wire;

pub use event_writer::{FieldAlias, GlobalField};
pub use keyword::{KeywordRule, Level, LevelSet};
pub use subscriber::TracelogSubscriber;
