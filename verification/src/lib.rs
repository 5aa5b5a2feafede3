//! Clipboard history: the verified core of a clipboard manager.
//!
//! The crate holds the logic of the application: the loop-prevention engine
//! that tells the clipboard watcher which changes are its own, the text and
//! bitmap codecs used to move clipboard contents in and out, the history
//! database with its folders and settings, and the decision step of the
//! clipboard watcher. Talking to the operating system, to the database file
//! and to the user interface is left to the program around it.

pub mod models;
pub mod store;
pub mod bitmap;
pub mod dedup;
pub mod text;
pub mod picture;
pub mod listener;
pub mod focus;
pub mod tray;
pub mod settings;
pub mod commands;
