//! Inspection of columnar files: the end-of-file record locator and the
//! analysis of in-memory encoding trees.

pub mod footer;
pub mod render;
pub mod text;
pub mod tree;

pub use footer::{locate_and_decode, FooterError};
pub use render::render_tree;
pub use text::truncate_string;
pub use tree::{contains_encoding, find_columns_with_encoding, find_first_struct_children, EncodingNode};
