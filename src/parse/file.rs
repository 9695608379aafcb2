//! Reading a whole file into a scene.

use vstd::prelude::*;
use crate::data::chunks::{Chunk, RawChunk, raw_views};
use crate::data::custom::VoxScene;
use crate::convert::{to_custom, decoded_prefix, spec_assemble, scene_result};
use crate::parse::chunk::{file_raw, spec_file_raw};
use crate::parse::error::VoxErrorKind;

verus! {

/// Parses a `.vox` file into a scene: the file ([`file_raw`]) must use up
/// the input exactly, then its chunks are assembled ([`to_custom`]). The
/// decimal text of `MATL` floats is turned into float bits by `read_f32`.
pub fn file_custom<F: Fn(&str) -> Option<u32>>(input: &[u8], read_f32: &F) -> (r: Result<VoxScene, VoxErrorKind>)
    requires
        forall|x: &str| #[trigger] read_f32.requires((x,)),
    ensures
        match spec_file_raw(input@) {
            Err(e) => r == Err::<VoxScene, VoxErrorKind>(e),
            Ok((cs, n)) => if n != input@.len() {
                r == Err::<VoxScene, VoxErrorKind>(VoxErrorKind::TrailingBytes)
            } else {
                exists|raws: Seq<RawChunk>, items: Seq<Result<Chunk, VoxErrorKind>>|
                    #[trigger] raw_views(raws) == cs && #[trigger] decoded_prefix(*read_f32, raws, items)
                    && spec_assemble(items) == scene_result(r)
            },
        },
{
    let (chunks, n) = file_raw(input)?;
    if n != input.len() {
        return Err(VoxErrorKind::TrailingBytes);
    }
    let r = to_custom(&chunks, read_f32);
    assert(raw_views(chunks@) == raw_views(chunks@));
    r
}

} // verus!
