//! Cursor capture for screen recordings: a session-scoped cache that gives each distinct
//! cursor bitmap a stable identity, and the per-tick decisions of the sampling actor
//! (stop handling, move and click events relative to the screen bounds).

pub mod cursor;
pub mod events;
pub mod recorder;
pub mod text;
