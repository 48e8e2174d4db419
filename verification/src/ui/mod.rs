//! What the terminal front end draws, as far as it is decided by values
//! rather than by a terminal: layouts, labels, scales and view state.

pub mod braille;
pub mod chrome;
pub mod dense;
pub mod graph;
pub mod lite;
pub mod panels;
pub mod rect;
pub mod theme;
