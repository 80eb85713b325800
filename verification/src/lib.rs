//! The editing core of a small text widget: a document of text lines with a
//! cursor and a selection marker, and the layout of its lines for display
//! (word wrap, caret positions and selection rectangles).

pub mod caret;
pub mod common;
pub mod cursor;
pub mod document;
pub mod document_laws;
pub mod layout;
pub mod measure;
pub mod rect;
pub mod selection;
pub mod textfield;
pub mod wrap;
pub mod wrap_laws;
