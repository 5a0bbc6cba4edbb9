//! Materialises Docker registry images: reference parsing, blob cache
//! naming and coordination, whiteout handling and ordered layer unpacking.
pub mod text;
pub mod reference;
pub mod pipeline;
pub mod cache;
pub mod whiteout;
