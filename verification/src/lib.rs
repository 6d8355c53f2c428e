//! Decoder for a family of chunk-based binary container formats holding
//! indexed-color tile graphics: palettes, tile bitmaps, tile-placement maps
//! and sprite-cell definitions, together with an LZ-style decompression
//! engine and a compositor that resolves a tilemap through a tileset and a
//! palette into a raster image.

pub mod bytes;
pub mod common;
pub mod compose;
pub mod error;
pub mod ncer;
pub mod ncgr;
pub mod nclr;
pub mod nscr;
