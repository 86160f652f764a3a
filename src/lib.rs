//! Block-transform support for a VarDCT image decoder: aligned sample grids,
//! windowed views into them, and the index layouts that the inverse
//! transforms move coefficients through.
pub mod cut_grid;
pub mod grid;
pub mod hf_block_context;
pub mod layout;
pub mod transform_type;
