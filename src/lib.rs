//! Navigation, range reading and axis-reordering logic for hierarchical,
//! chunked multi-dimensional array files.
pub mod error;
pub mod text;
pub mod range;
pub mod tree;
pub mod transcode;
pub mod view;
