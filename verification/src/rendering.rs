//! What to draw: the chunked render cache, the grid lines and the selection
//! preview.

pub mod canvas;
pub mod grid;
pub mod selection;
