//! Verified core of a web-blocking focus timer: the tray timer's state
//! machine and title, the tray icon's pixels, and the session log's data,
//! arithmetic on timestamps and durations, and its text formats.

pub mod ident;
pub mod session;
pub mod text;
pub mod timestamp;
pub mod tray;
