//! Verified core of a safe interface to LMDB, the Lightning Memory-Mapped Database.
//!
//! Everything that decides something lives here: how result codes become errors, how cursors are
//! positioned and iterated, when and by how much the memory map grows, and how transactions and a
//! map replacement keep out of each other's way. The calls into LMDB and the operating system are
//! made by the program around this library, which hands their outcomes in as plain values.

pub mod call_laws;
pub mod cursor;
pub mod cursor_laws;
pub mod cursor_model;
pub mod database;
pub mod environment;
pub mod error;
pub mod flags;
pub mod float;
pub mod freelist;
pub mod growing;
pub mod interlock;
pub mod lookup_laws;
pub mod opening;
pub mod resize;
pub mod resize_laws;
pub mod resize_runs;
pub mod resizing;
pub mod system;
pub mod transaction_guard;
pub mod update_laws;

pub use cursor::{Cursor, Iter, RoCursor, RwCursor, WriteCursor};
pub use database::Database;
pub use environment::{Environment, EnvironmentBuilder, Info, Stat};
pub use error::Error;
pub use flags::{DatabaseFlags, EnvironmentFlags, WriteFlags};
pub use float::Binary32;
pub use resize::{
    DatabaseResizeInfo, DatabaseResizeSettings, InvalidResizeTriggerFraction, ResizeTriggerFraction,
};
