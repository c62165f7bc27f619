//! Offline texture-asset pipeline: pixel-buffer transforms, icon recipes,
//! vector-document splitting, composite-layer descriptors, and the packed
//! texture container format.
//!
//! Text (paths, labels, option names, emitted documents) is carried as UTF-8
//! bytes in `Vec<u8>` values throughout the library.

pub mod center;
pub mod composite;
pub mod encode;
pub mod markup;
pub mod meta;
pub mod pixel;
pub mod raster;
pub mod recipes;
pub mod sheets;
pub mod splitter;
pub mod text;
pub mod transform;
