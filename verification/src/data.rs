//! The data model: coordinates, colours, cells and the sparse grid.

pub mod cell;
pub mod color;
pub mod coord;
pub mod group;
pub mod selection;
