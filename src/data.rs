//! Data structures for the contents of a `.vox` file.
//!
//! [`chunks`] holds the chunks as the format lays them out; [`custom`] holds the
//! assembled scene. See [`crate::to_custom`] and [`crate::from_custom`] for the
//! conversions between the two.

pub mod chunks;
pub mod custom;
pub mod default_palette;
pub mod special;
