//! An infinite-canvas pixel editor: a sparse grid of coloured cells, a
//! chunked dirty-tracking render cache, a selection state machine with
//! lift-and-move, a clipboard, groups, and a bounded undo history.
//!
//! The library decides what the editor holds; it neither polls input nor
//! draws. Its caller hands it the input of a frame as plain values (which
//! keys went down, which cell the pointer is over) and draws what it hands
//! back (the rectangles of a chunk's image, the chunks in view).
//!
//! Every operation is specified against a mathematical model and proved to
//! implement it. The model of the whole editor is [`state::Editor`]: a
//! state whose grid is a map from coordinates to cells and whose selection
//! is a set, and beside it the dirty flags of the chunks. A tool is a
//! function from an editor and the input of a frame to the next editor,
//! and the function that runs it is proved to compute just that. What
//! should hold of the editor whatever is done to it is stated over the same
//! model and proved: a cell is found again from its chunk and its place in
//! it, painting twice is painting once, a selection that is moved takes its
//! cells with it and leaves the rest alone, undo gives back the grid as it
//! was, and the history keeps no more commands than it was made for.
//!
//! Coordinates are pairs of `i32` and live on a ring: moving a cell past
//! either end of the range brings it back in at the other end, so that
//! every operation is total.

pub mod data;
pub mod input;
pub mod rendering;
pub mod state;
pub mod ui;
