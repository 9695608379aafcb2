//! Parser, writer and data structures for the MagicaVoxel `.vox` format.
//!
//! Two representations are offered:
//! * [`data::chunks`]: the chunks as they are laid out in a file.
//! * [`data::custom`]: an assembled scene (palette, models, scene tree and
//!   layers), which is easier to work with.
//!
//! [`parse::file_custom`] reads a file into a scene, [`unparse::file_custom`]
//! writes a scene back. Floating-point material values are carried as their
//! IEEE-754 bit patterns (`u32`); where the format stores such a value as
//! decimal text (the `MATL` chunk), the caller hands in the conversion
//! between text and bits.

pub mod convert;
pub mod data;
pub mod parse;
pub mod unparse;

pub use convert::{to_custom, from_custom};
