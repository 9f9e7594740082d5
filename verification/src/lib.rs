//! Tile download planning: which tiles to fetch and in what order, how a
//! tile's request URL and file path are written, and how many fetches may
//! run at once.

pub mod address;
pub mod order;
pub mod text;
pub mod render;
pub mod fetcher;
