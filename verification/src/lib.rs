//! A single-line, Unicode-aware text editing engine for a character-grid
//! input field: an edit buffer, a cursor in bytes, and a scroll window that
//! keeps the cursor visible in a viewport of fixed width.

pub mod text;
pub mod edit_view;
pub mod event;
pub mod render;
