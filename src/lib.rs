//! Wang-tile assignment: edge codes, a constrained random tile selector, a
//! row-major grid assembler whose neighbours agree on every shared edge, and
//! the integer layout of the rendered atlas and mosaic.

pub mod edge_code;
pub mod select;
pub mod grid;
pub mod layout;
