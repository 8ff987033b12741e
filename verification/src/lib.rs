//! The playing field of a falling-block puzzle, with its rules proved.
//!
//! A [`color_grid::ColorGrid`] owns the cells of the field and the piece that
//! is falling through it. It decides whether the piece may move or turn,
//! notices when it lands, locks it into the field and clears the rows that
//! became full. Cell colours are cursive's `ColorStyle` values.
pub mod block;
pub mod color;
pub mod color_grid;
pub mod field;
pub mod fit;
pub mod laws;
pub mod lrd;
pub mod state;
