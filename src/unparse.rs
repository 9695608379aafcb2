//! Writers for the `.vox` binary format: the inverse of [`crate::parse`].
//!
//! Every writer appends to a byte vector. Lengths are written as `u32`.

pub mod container;
pub mod helpers;
pub mod payload;
pub mod special;
pub mod text;

pub use container::{chunk, file_custom, file_raw, raw_chunk};
pub use helpers::le_u32;
pub use payload::{chunk_layr, chunk_matl, chunk_matt, chunk_ngrp, chunk_nshp, chunk_ntrn, chunk_pack,
    chunk_rgba, chunk_size, chunk_xyzi};
pub use special::{string, dict, dict_ref, rotation_u8};
