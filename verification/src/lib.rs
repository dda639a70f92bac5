//! Layout of vectors, matrices and case distinctions in mathematical
//! typesetting: measured cells, merged alignment points, the grid body and
//! the stretched delimiters around it.

pub mod align;
pub mod content;
pub mod context;
pub mod delimiter;
pub mod frame;
pub mod grid;
pub mod length;
pub mod matrix;
pub mod row;
pub mod source;
pub mod stack;
