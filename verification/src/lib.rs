//! A single-line text input buffer with a cursor, driven by key events.

pub mod class;
pub mod editor;
pub mod encoding;
pub mod keys;
pub mod laws;
pub mod model;
pub mod skip;

pub use editor::LineEditor;
pub use keys::{KeyCode, KeyEvent, KeyModifiers};
pub use model::LineEditOutcome;
