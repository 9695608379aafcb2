//! The chunks of a `.vox` file, as the format lays them out.
//!
//! Floating-point values are held as their IEEE-754 bit patterns (`u32`).

use vstd::prelude::*;
use crate::data::special::MatRowCols;

verus! {

/// A `DICT`: key/value pairs in file order. Where a key occurs more than once,
/// the last pair counts (see [`crate::parse::special::dict_find`]).
pub type Dict = Vec<(String, String)>;

/// A chunk of a `.vox` file whose payload has been decoded.
///
/// Chunks that the format does not describe cannot be represented.
#[allow(non_camel_case_types)]
pub enum Chunk {
    PACK(u32),
    SIZE((u32, u32, u32)),
    XYZI(Vec<(u8, u8, u8, u8)>),
    /// The 255 colors of palette slots 1 to 255.
    RGBA(Vec<(u8, u8, u8, u8)>),
    MATT(Matt),
    NTRN(TransformNode),
    NGRP(GroupNode),
    NSHP(ShapeNode),
    MATL(Matl),
    LAYR(Layr),
}

/// The bytes of a tag.
pub open spec fn tag_bytes(t: [u8; 4]) -> Seq<u8> {
    t@
}

pub open spec fn tag_pack() -> Seq<u8> { seq![80u8, 65, 67, 75] }
pub open spec fn tag_size() -> Seq<u8> { seq![83u8, 73, 90, 69] }
pub open spec fn tag_xyzi() -> Seq<u8> { seq![88u8, 89, 90, 73] }
pub open spec fn tag_rgba() -> Seq<u8> { seq![82u8, 71, 66, 65] }
pub open spec fn tag_matt() -> Seq<u8> { seq![77u8, 65, 84, 84] }
pub open spec fn tag_ntrn() -> Seq<u8> { seq![110u8, 84, 82, 78] }
pub open spec fn tag_ngrp() -> Seq<u8> { seq![110u8, 71, 82, 80] }
pub open spec fn tag_nshp() -> Seq<u8> { seq![110u8, 83, 72, 80] }
pub open spec fn tag_matl() -> Seq<u8> { seq![77u8, 65, 84, 76] }
pub open spec fn tag_layr() -> Seq<u8> { seq![76u8, 65, 89, 82] }
pub open spec fn tag_main() -> Seq<u8> { seq![77u8, 65, 73, 78] }

/// The tag of each kind of chunk.
pub open spec fn chunk_tag(c: Chunk) -> Seq<u8> {
    match c {
        Chunk::PACK(_) => tag_pack(),
        Chunk::SIZE(_) => tag_size(),
        Chunk::XYZI(_) => tag_xyzi(),
        Chunk::RGBA(_) => tag_rgba(),
        Chunk::MATT(_) => tag_matt(),
        Chunk::NTRN(_) => tag_ntrn(),
        Chunk::NGRP(_) => tag_ngrp(),
        Chunk::NSHP(_) => tag_nshp(),
        Chunk::MATL(_) => tag_matl(),
        Chunk::LAYR(_) => tag_layr(),
    }
}

impl Chunk {
    /// Returns the tag bytes of the chunk (e.g. `PACK`, `nTRN`).
    pub fn tag(&self) -> (r: [u8; 4])
        ensures
            r@ == chunk_tag(*self),
    {
        let r: [u8; 4] = match self {
            Chunk::PACK(_) => [80, 65, 67, 75],
            Chunk::SIZE(_) => [83, 73, 90, 69],
            Chunk::XYZI(_) => [88, 89, 90, 73],
            Chunk::RGBA(_) => [82, 71, 66, 65],
            Chunk::MATT(_) => [77, 65, 84, 84],
            Chunk::NTRN(_) => [110, 84, 82, 78],
            Chunk::NGRP(_) => [110, 71, 82, 80],
            Chunk::NSHP(_) => [110, 83, 72, 80],
            Chunk::MATL(_) => [77, 65, 84, 76],
            Chunk::LAYR(_) => [76, 65, 89, 82],
        };
        assert(r@ =~= chunk_tag(*self));
        r
    }
}

/// A chunk whose payload and children are not decoded yet.
///
/// ```text
/// 1x4 : chunk id
/// 4   : num bytes of chunk content (N)
/// 4   : num bytes of children chunks (M)
/// N   : chunk content
/// M   : children chunks
/// ```
pub struct RawChunk {
    /// Chunk tag (e.g., `PACK` or `RGBA`).
    pub tag: [u8; 4],
    /// Payload bytes, decoded separately into a [`Chunk`].
    pub payload_data: Vec<u8>,
    /// The nested chunks. In practice only the `MAIN` chunk has children.
    pub children: Vec<RawChunk>,
}

/// What a raw chunk holds, as plain sequences.
pub struct RawChunkView {
    pub tag: Seq<u8>,
    pub payload: Seq<u8>,
    pub children: Seq<RawChunkView>,
}

/// The view of a raw chunk tree.
pub open spec fn raw_view(c: RawChunk) -> RawChunkView
    decreases c,
{
    RawChunkView { tag: c.tag@, payload: c.payload_data@, children: raw_views(c.children@) }
}

/// The views of a sequence of raw chunks.
pub open spec fn raw_views(cs: Seq<RawChunk>) -> Seq<RawChunkView>
    decreases cs,
{
    if cs.len() == 0 {
        Seq::empty()
    } else {
        raw_views(cs.drop_last()).push(raw_view(cs.last()))
    }
}

/// `MATT` chunk: a palette material (deprecated in favour of [`Matl`]).
///
/// ```text
/// 4     : id [1-255]
/// 4     : material type
/// 4     : material weight (float)
/// 4     : property bits
/// 4 * N : normalized property values (float)
/// ```
pub struct Matt {
    pub id: u8,
    pub matt_type: MattType,
    pub prop_plastic: Option<u32>,
    pub prop_roughness: Option<u32>,
    pub prop_specular: Option<u32>,
    pub prop_ior: Option<u32>,
    pub prop_attenuation: Option<u32>,
    pub prop_power: Option<u32>,
    pub prop_glow: Option<u32>,
    pub prop_is_total_power: bool,
}

/// Material type of a `MATT` chunk, with its weight (float bits). A diffuse
/// material always has weight 1.0.
#[derive(Debug, Clone, Copy, PartialEq, Eq, Structural)]
pub enum MattType {
    Diffuse,
    /// (0.0 - 1.0]: blend between metal and diffuse material
    Metal(u32),
    /// (0.0 - 1.0]: blend between glass and diffuse material
    Glass(u32),
    /// (0.0 - 1.0]: emission
    Emissive(u32),
}

/// `nTRN` chunk: a transform node of the scene graph, with its single frame.
///
/// ```text
/// int32 : node id
/// DICT  : node attributes (_name : string) (_hidden : 0/1)
/// int32 : child node id
/// int32 : reserved id (must be -1)
/// int32 : layer id
/// int32 : num of frames (must be 1)
/// DICT  : frame attributes (_r : int8 ROTATION) (_t : int32x3 translation)
/// ```
pub struct TransformNode {
    pub node_id: u32,
    pub name: Option<String>,
    pub is_hidden: bool,
    pub child_node_id: u32,
    pub layer_id: Option<u32>,
    pub rotation: MatRowCols,
    pub translation: (i32, i32, i32),
}

/// `nGRP` chunk: a group node; its children are transform nodes.
pub struct GroupNode {
    pub node_id: u32,
    pub attributes: Dict,
    pub child_nodes: Vec<u32>,
}

/// `nSHP` chunk: a shape node, which references one model.
pub struct ShapeNode {
    pub node_id: u32,
    pub attributes: Dict,
    pub model_id: u32,
    pub model_attributes: Dict,
}

/// `MATL` chunk: a palette material. Float properties are bit patterns.
pub struct Matl {
    pub id: u8,
    pub prop_type: MatlType,
    pub prop_weight: Option<u32>,
    pub prop_rough: Option<u32>,
    pub prop_spec: Option<u32>,
    pub prop_ior: Option<u32>,
    pub prop_att: Option<u32>,
    pub prop_flux: Option<u32>,
    pub prop_density: Option<u32>,
    pub prop_alpha: Option<u32>,
    pub prop_emit: Option<u32>,
    pub prop_ldr: Option<u32>,
    pub prop_metal: Option<u32>,
    pub prop_plastic: bool,
}

impl Matl {
    /// A material with the given id and type, but without properties.
    pub fn new(id: u8, prop_type: MatlType) -> (r: Matl)
        ensures
            r == (Matl { id, prop_type, prop_weight: None, prop_rough: None, prop_spec: None,
                prop_ior: None, prop_att: None, prop_flux: None, prop_density: None,
                prop_alpha: None, prop_emit: None, prop_ldr: None, prop_metal: None,
                prop_plastic: false }),
    {
        Matl {
            id,
            prop_type,
            prop_weight: None,
            prop_rough: None,
            prop_spec: None,
            prop_ior: None,
            prop_att: None,
            prop_flux: None,
            prop_density: None,
            prop_alpha: None,
            prop_emit: None,
            prop_ldr: None,
            prop_metal: None,
            prop_plastic: false,
        }
    }
}

/// Material type of a `MATL` chunk.
#[derive(Debug, Clone, Copy, PartialEq, Eq, Structural)]
pub enum MatlType {
    Diffuse,
    Metal,
    Glass,
    Emit,
    /// Blends between glass and metal.
    Blend,
    /// Clouds.
    Media,
}

/// `LAYR` chunk: a layer of the scene.
pub struct Layr {
    pub id: u32,
    pub name: Option<String>,
    pub is_hidden: bool,
}

} // verus!
