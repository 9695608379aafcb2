//! Parsers for the `.vox` binary format.
//!
//! The parsers take the input and a position in it (or the input alone, for
//! a whole chunk or file) and give back the value and the position after it
//! (or the number of bytes taken), or the first error.

pub mod chunk;
pub mod chunk_material;
pub mod chunk_model;
pub mod chunk_scene;
pub mod error;
pub mod file;
pub mod helpers;
pub mod number;
pub mod payload;
pub mod special;

pub use chunk::{raw_chunk, file_raw};
pub use file::file_custom;
pub use payload::chunk;
pub use error::VoxErrorKind;
pub use special::{string, dict, rotation_u8};
pub use chunk_material::{chunk_matl, chunk_matl_all, chunk_matt, chunk_matt_all};
pub use chunk_model::{chunk_pack, chunk_pack_all, chunk_rgba, chunk_rgba_all, chunk_size, chunk_size_all,
    chunk_xyzi, chunk_xyzi_all};
pub use chunk_scene::{chunk_layr, chunk_layr_all, chunk_ngrp, chunk_ngrp_all, chunk_nshp, chunk_nshp_all,
    chunk_ntrn, chunk_ntrn_all};
