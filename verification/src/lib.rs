//! A small verified task tracker: tasks with a status and two timestamps, an
//! ordered store whose ids are always `1..=len`, and a canonical text form
//! that survives a save/load round trip.

pub mod clock;
pub mod codec;
pub mod num;
pub mod store;
pub mod task;

pub use crate::store::TaskList;
pub use crate::task::Error;
pub use crate::task::Status;
pub use crate::task::Task;
