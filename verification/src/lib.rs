//! A scrolling text viewport: lines of text, a cursor that survives moves
//! between lines of different length, and a window that scrolls over a file.

pub mod border;
pub mod bounds;
pub mod document;
pub mod frame;
pub mod keys;
pub mod laws;
pub mod line;
pub mod message;
pub mod picker;
pub mod picture;
pub mod portal;
pub mod reservoir;
pub mod text;
