//! Session state for a launcher screen that lists recently opened files and
//! bookmarks, selects one by a single hex key, and persists both lists.

pub mod item;
pub mod selection;
pub mod store;
pub mod blob;
pub mod session;
