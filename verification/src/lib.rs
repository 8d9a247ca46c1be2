//! A terminal notebook of tips kept as Markdown files in workspaces: the
//! database tree and its searches, the settings file, the key bindings, what the
//! screen shows, the texts written into notes, and the session that ties them
//! together. Reading and writing files, the terminal and drawing are left to the
//! program around the library.
use vstd::prelude::*;

pub mod text;
pub mod engine;
pub mod database;
pub mod config;
pub mod keys;
pub mod ui;
pub mod notes;
pub mod session;

verus! {
}
