//! Conversion between the chunks of a file and the assembled scene:
//! [`to_custom`] (with [`SceneBuilder`]) and [`from_custom`].

use vstd::prelude::*;
use std::collections::HashMap;
use crate::data::chunks::{Chunk, RawChunk, Matt, MattType, Matl, MatlType, TransformNode, GroupNode, ShapeNode, Layr};
use crate::data::custom::{VoxScene, Model, Layer, SceneNode, NodeType, Material, MaterialType,
    MetalMaterial, GlassMaterial, EmitMaterial, BlendMaterial, SceneNodeView, NodeTypeView, node_view,
    node_views, model_view, layer_view};
use crate::data::default_palette::{default_color, default_palette};
use crate::data::special::MatRowCols;
use crate::parse::error::VoxErrorKind;
use crate::parse::chunk_scene::{opt_text, TransformView, GroupView, ShapeView, LayrView, transform_view,
    group_view, shape_view, layr_view};
use crate::parse::special::dict_view;
use crate::parse::payload::{chunk, chunk_decodes, chunk_fails};

verus! {

broadcast use vstd::std_specs::hash::group_hash_axioms;

/// Default roughness.
pub const DEFAULT_ROUGH: u32 = 0;
/// Default index of refraction (as offset from 1.0).
pub const DEFAULT_IOR: u32 = 0;
/// Default metalness.
pub const DEFAULT_METAL: u32 = 0;
/// Default glass weight.
pub const DEFAULT_WEIGHT: u32 = 0;
/// Default emission.
pub const DEFAULT_EMIT: u32 = 0;
/// Default power (flux).
pub const DEFAULT_FLUX: u32 = 1;
/// Default low dynamic range value.
pub const DEFAULT_LDR: u32 = 0;
/// Default alpha.
pub const DEFAULT_ALPHA: u32 = 0;

/// A node of the scene graph as its chunk gave it.
pub enum ParsedNode {
    Transform(TransformNode),
    Group(GroupNode),
    Shape(ShapeNode),
}

/// The value of an optional field: absent means the default.
pub open spec fn or_default(v: Option<u32>, d: u32) -> u32 {
    match v {
        Some(x) => x,
        None => d,
    }
}

/// A field's value as it is written: `None` when it equals the default.
pub open spec fn elided(v: u32, d: u32) -> Option<u32> {
    if v == d { None } else { Some(v) }
}

/// Converts an optional value into an explicit one; absent means the default.
pub fn to_val(default_val: u32, v: Option<u32>) -> (r: u32)
    ensures
        r == or_default(v, default_val),
{
    match v {
        Some(x) => x,
        None => default_val,
    }
}

/// Converts an explicit value back into an optional one: `None` when it
/// equals the default, which need not be stored.
pub fn from_val(default_val: u32, v: u32) -> (r: Option<u32>)
    ensures
        r == elided(v, default_val),
{
    if default_val == v { None } else { Some(v) }
}

/// The material that a `MATL` chunk describes.
pub open spec fn spec_matl2material(m: Matl) -> MaterialType {
    match m.prop_type {
        MatlType::Diffuse => MaterialType::Diffuse,
        MatlType::Metal => MaterialType::Metal(MetalMaterial {
            prop_rough: or_default(m.prop_rough, DEFAULT_ROUGH),
            prop_ior: or_default(m.prop_ior, DEFAULT_IOR),
            prop_metal: or_default(m.prop_metal, DEFAULT_METAL),
        }),
        MatlType::Glass => MaterialType::Glass(GlassMaterial {
            prop_rough: or_default(m.prop_rough, DEFAULT_ROUGH),
            prop_ior: or_default(m.prop_ior, DEFAULT_IOR),
            prop_weight: or_default(m.prop_weight, DEFAULT_WEIGHT),
        }),
        MatlType::Emit => MaterialType::Emit(EmitMaterial {
            prop_emit: or_default(m.prop_emit, DEFAULT_EMIT),
            prop_flux: or_default(m.prop_flux, DEFAULT_FLUX),
            prop_ldr: or_default(m.prop_ldr, DEFAULT_LDR),
        }),
        MatlType::Blend => MaterialType::Blend(BlendMaterial {
            prop_rough: or_default(m.prop_rough, DEFAULT_ROUGH),
            prop_metal: or_default(m.prop_metal, DEFAULT_METAL),
            prop_ior: or_default(m.prop_ior, DEFAULT_IOR),
            prop_alpha: or_default(m.prop_alpha, DEFAULT_ALPHA),
        }),
        MatlType::Media => MaterialType::Media,
    }
}

/// Converts a `MATL` chunk into the material type of the scene.
pub fn matl2material(m: &Matl) -> (r: MaterialType)
    ensures
        r == spec_matl2material(*m),
{
    match m.prop_type {
        MatlType::Diffuse => MaterialType::Diffuse,
        MatlType::Metal => MaterialType::Metal(MetalMaterial {
            prop_rough: to_val(DEFAULT_ROUGH, m.prop_rough),
            prop_ior: to_val(DEFAULT_IOR, m.prop_ior),
            prop_metal: to_val(DEFAULT_METAL, m.prop_metal),
        }),
        MatlType::Glass => MaterialType::Glass(GlassMaterial {
            prop_rough: to_val(DEFAULT_ROUGH, m.prop_rough),
            prop_ior: to_val(DEFAULT_IOR, m.prop_ior),
            prop_weight: to_val(DEFAULT_WEIGHT, m.prop_weight),
        }),
        MatlType::Emit => MaterialType::Emit(EmitMaterial {
            prop_emit: to_val(DEFAULT_EMIT, m.prop_emit),
            prop_flux: to_val(DEFAULT_FLUX, m.prop_flux),
            prop_ldr: to_val(DEFAULT_LDR, m.prop_ldr),
        }),
        MatlType::Blend => MaterialType::Blend(BlendMaterial {
            prop_rough: to_val(DEFAULT_ROUGH, m.prop_rough),
            prop_metal: to_val(DEFAULT_METAL, m.prop_metal),
            prop_ior: to_val(DEFAULT_IOR, m.prop_ior),
            prop_alpha: to_val(DEFAULT_ALPHA, m.prop_alpha),
        }),
        MatlType::Media => MaterialType::Media,
    }
}

/// The float with bit pattern `b` converted to `u32` as Rust's `as` does:
/// truncated toward zero, NaN and negatives giving 0, too large values
/// `u32::MAX`.
pub open spec fn float_bits_as_u32(b: u32) -> u32 {
    let e = (b / 0x80_0000) % 256;
    let m = b % 0x80_0000;
    if b >= 0x8000_0000 || e < 127 || (e == 255 && m != 0) {
        0
    } else if e >= 159 {
        u32::MAX
    } else if e >= 150 {
        (((0x80_0000 + m) as u32) << ((e - 150) as u32)) as u32
    } else {
        (((0x80_0000 + m) as u32) >> ((150 - e) as u32)) as u32
    }
}

/// Converts float bits to `u32` (see [`float_bits_as_u32`]).
fn float_to_u32(b: u32) -> (r: u32)
    ensures
        r == float_bits_as_u32(b),
{
    let e = (b / 0x80_0000) % 256;
    let m = b % 0x80_0000;
    if b >= 0x8000_0000 || e < 127 || (e == 255 && m != 0) {
        0
    } else if e >= 159 {
        u32::MAX
    } else if e >= 150 {
        (0x80_0000 + m) << (e - 150)
    } else {
        (0x80_0000 + m) >> (150 - e)
    }
}

/// The material that a `MATT` chunk describes. The weight becomes the metal
/// value, the glass weight or the emission; the power becomes the flux.
pub open spec fn spec_matt2material(m: Matt) -> MaterialType {
    match m.matt_type {
        MattType::Diffuse => MaterialType::Diffuse,
        MattType::Metal(w) => MaterialType::Metal(MetalMaterial {
            prop_rough: or_default(m.prop_roughness, DEFAULT_ROUGH),
            prop_ior: or_default(m.prop_ior, DEFAULT_IOR),
            prop_metal: w,
        }),
        MattType::Glass(w) => MaterialType::Glass(GlassMaterial {
            prop_rough: or_default(m.prop_roughness, DEFAULT_ROUGH),
            prop_ior: or_default(m.prop_ior, DEFAULT_IOR),
            prop_weight: w,
        }),
        MattType::Emissive(w) => MaterialType::Emit(EmitMaterial {
            prop_emit: w,
            prop_flux: match m.prop_power {
                Some(p) => float_bits_as_u32(p),
                None => DEFAULT_FLUX,
            },
            prop_ldr: 0,
        }),
    }
}

/// Converts a `MATT` chunk into the material type of the scene.
pub fn matt2material(m: &Matt) -> (r: MaterialType)
    ensures
        r == spec_matt2material(*m),
{
    match m.matt_type {
        MattType::Diffuse => MaterialType::Diffuse,
        MattType::Metal(w) => MaterialType::Metal(MetalMaterial {
            prop_rough: to_val(DEFAULT_ROUGH, m.prop_roughness),
            prop_ior: to_val(DEFAULT_IOR, m.prop_ior),
            prop_metal: w,
        }),
        MattType::Glass(w) => MaterialType::Glass(GlassMaterial {
            prop_rough: to_val(DEFAULT_ROUGH, m.prop_roughness),
            prop_ior: to_val(DEFAULT_IOR, m.prop_ior),
            prop_weight: w,
        }),
        MattType::Emissive(w) => MaterialType::Emit(EmitMaterial {
            prop_emit: w,
            prop_flux: match m.prop_power {
                Some(p) => float_to_u32(p),
                None => DEFAULT_FLUX,
            },
            prop_ldr: 0,
        }),
    }
}

/// The state of assembly, as plain values.
pub struct BuilderView {
    pub palette: Seq<Material>,
    pub models: Seq<((u32, u32, u32), Seq<(u8, u8, u8, u8)>)>,
    pub pending_size: Option<(u32, u32, u32)>,
    pub layers: Seq<(Seq<char>, bool)>,
    pub nodes: Map<u32, ParsedNode>,
    pub node_chunks: nat,
}

/// The state before the first chunk: the default palette of diffuse
/// materials, and nothing else.
pub open spec fn initial_state() -> BuilderView {
    BuilderView {
        palette: Seq::new(255, |i: int| Material { rgba: default_color(i), mat_type: MaterialType::Diffuse }),
        models: Seq::empty(),
        pending_size: None,
        layers: Seq::empty(),
        nodes: Map::empty(),
        node_chunks: 0,
    }
}

/// Decode failures that assembly skips: unknown chunks, and `MATL` chunks
/// for palette index 0 or 256, which some producers write.
pub open spec fn tolerated(e: VoxErrorKind) -> bool {
    match e {
        VoxErrorKind::UnknownChunk(_) => true,
        VoxErrorKind::InvalidMatlId(id) => id == 0 || id == 256,
        _ => false,
    }
}

/// The palette with the colors of an `RGBA` chunk (materials kept).
pub open spec fn with_colors(p: Seq<Material>, c: Seq<(u8, u8, u8, u8)>) -> Seq<Material> {
    Seq::new(p.len(), |i: int| if i < c.len() { Material { rgba: c[i], mat_type: p[i].mat_type } } else { p[i] })
}

/// The palette with the material of entry `id - 1` replaced (color kept);
/// id 0 changes nothing.
pub open spec fn with_material(p: Seq<Material>, id: u8, t: MaterialType) -> Seq<Material> {
    if id == 0 {
        p
    } else {
        p.update(id - 1, Material { rgba: p[id - 1].rgba, mat_type: t })
    }
}

/// The layers grown to hold `id`, with layer `id` set.
pub open spec fn with_layer(ls: Seq<(Seq<char>, bool)>, id: u32, name: Seq<char>, hidden: bool) -> Seq<(Seq<char>, bool)> {
    let grown = if ls.len() <= id {
        ls + Seq::new((id + 1 - ls.len()) as nat, |i: int| (Seq::<char>::empty(), false))
    } else {
        ls
    };
    grown.update(id as int, (name, hidden))
}

/// One step of assembly: what a chunk (or its decode failure) does to the
/// state.
pub open spec fn spec_step(s: BuilderView, item: Result<Chunk, VoxErrorKind>) -> Result<BuilderView, VoxErrorKind> {
    match item {
        Err(e) => if tolerated(e) { Ok(s) } else { Err(e) },
        Ok(c) => match c {
            Chunk::PACK(_) => Ok(s),
            Chunk::SIZE(sz) => if s.pending_size is Some {
                Err(VoxErrorKind::NonAlternatingModel)
            } else {
                Ok(BuilderView { pending_size: Some(sz), ..s })
            },
            Chunk::XYZI(v) => match s.pending_size {
                None => Err(VoxErrorKind::NonAlternatingModel),
                Some(sz) => Ok(BuilderView { models: s.models.push((sz, v@)), pending_size: None, ..s }),
            },
            Chunk::RGBA(c) => Ok(BuilderView { palette: with_colors(s.palette, c@), ..s }),
            Chunk::MATT(m) => Ok(BuilderView { palette: with_material(s.palette, m.id, spec_matt2material(m)), ..s }),
            Chunk::MATL(m) => Ok(BuilderView { palette: with_material(s.palette, m.id, spec_matl2material(m)), ..s }),
            Chunk::LAYR(l) => Ok(BuilderView {
                layers: with_layer(s.layers, l.id, match opt_text(l.name) { Some(n) => n, None => Seq::empty() }, l.is_hidden),
                ..s
            }),
            Chunk::NTRN(t) => Ok(BuilderView { nodes: s.nodes.insert(t.node_id, ParsedNode::Transform(t)), node_chunks: s.node_chunks + 1, ..s }),
            Chunk::NGRP(g) => Ok(BuilderView { nodes: s.nodes.insert(g.node_id, ParsedNode::Group(g)), node_chunks: s.node_chunks + 1, ..s }),
            Chunk::NSHP(n) => Ok(BuilderView { nodes: s.nodes.insert(n.node_id, ParsedNode::Shape(n)), node_chunks: s.node_chunks + 1, ..s }),
        },
    }
}

/// Assembly of a whole chunk sequence, chunk by chunk; the first error ends it.
pub open spec fn spec_fold(items: Seq<Result<Chunk, VoxErrorKind>>) -> Result<BuilderView, VoxErrorKind>
    decreases items.len(),
{
    if items.len() == 0 {
        Ok(initial_state())
    } else {
        match spec_fold(items.drop_last()) {
            Err(e) => Err(e),
            Ok(s) => spec_step(s, items.last()),
        }
    }
}

/// The scene tree under transform node `id`: the transform's child must be a
/// group (whose children are built in turn) or a shape whose model exists.
/// `depth` bounds the nesting, so that a graph that refers back to itself
/// gives `None`.
pub open spec fn spec_build(nodes: Map<u32, ParsedNode>, id: u32, num_models: nat, depth: nat) -> Option<SceneNodeView>
    decreases depth, 0nat,
{
    if depth == 0 {
        None
    } else {
        match nodes.get(id) {
            Some(ParsedNode::Transform(t)) => {
                let kind = match nodes.get(t.child_node_id) {
                    Some(ParsedNode::Group(g)) => match spec_build_list(nodes, g.child_nodes@, num_models, (depth - 1) as nat) {
                        Some(cs) => Some(NodeTypeView::Group(cs)),
                        None => None,
                    },
                    Some(ParsedNode::Shape(s)) => if s.model_id < num_models { Some(NodeTypeView::Shape(s.model_id)) } else { None },
                    _ => None,
                };
                match kind {
                    Some(k) => Some(SceneNodeView { rotation: t.rotation, translation: t.translation, layer_id: t.layer_id, node_type: k }),
                    None => None,
                }
            },
            _ => None,
        }
    }
}

/// The scene trees under the transform nodes `ids`, in order.
pub open spec fn spec_build_list(nodes: Map<u32, ParsedNode>, ids: Seq<u32>, num_models: nat, depth: nat) -> Option<Seq<SceneNodeView>>
    decreases depth, ids.len(),
{
    if ids.len() == 0 {
        Some(Seq::empty())
    } else {
        match spec_build_list(nodes, ids.drop_last(), num_models, depth) {
            None => None,
            Some(cs) => match spec_build(nodes, ids.last(), num_models, depth) {
                None => None,
                Some(c) => Some(cs.push(c)),
            },
        }
    }
}

/// Once building a prefix fails, building the whole list fails.
proof fn lemma_build_list_none(nodes: Map<u32, ParsedNode>, ids: Seq<u32>, i: int, num_models: nat, depth: nat)
    requires
        0 <= i <= ids.len(),
        spec_build_list(nodes, ids.subrange(0, i), num_models, depth) is None,
    ensures
        spec_build_list(nodes, ids, num_models, depth) is None,
    decreases ids.len() - i,
{
    if i < ids.len() {
        assert(ids.subrange(0, i + 1).drop_last() =~= ids.subrange(0, i));
        lemma_build_list_none(nodes, ids, i + 1, num_models, depth);
    } else {
        assert(ids.subrange(0, i) =~= ids);
    }
}

/// The scene of a file without scene-graph chunks: one node at the identity,
/// on layer 0, showing model 0 if there is a model (else an empty group).
pub open spec fn default_graph(num_models: nat) -> SceneNodeView {
    SceneNodeView {
        rotation: MatRowCols::OneTwoThree(false, false, false),
        translation: (0, 0, 0),
        layer_id: Some(0),
        node_type: if num_models > 0 { NodeTypeView::Shape(0) } else { NodeTypeView::Group(Seq::empty()) },
    }
}

/// What an assembled scene holds, as plain values.
pub struct SceneView {
    pub palette: Seq<Material>,
    pub models: Seq<((u32, u32, u32), Seq<(u8, u8, u8, u8)>)>,
    pub graph: SceneNodeView,
    pub layers: Seq<(Seq<char>, bool)>,
}

/// The view of an assembled scene.
pub open spec fn scene_view(s: VoxScene) -> SceneView {
    SceneView {
        palette: s.palette@,
        models: s.models@.map_values(|m: Model| model_view(m)),
        graph: node_view(s.graph),
        layers: s.layers@.map_values(|l: Layer| layer_view(l)),
    }
}

/// The scene that the final state gives: without nodes, the default graph;
/// else the tree under node 0, which must resolve.
pub open spec fn spec_finish(s: BuilderView) -> Result<SceneView, VoxErrorKind> {
    let graph = if s.nodes.is_empty() {
        Some(default_graph(s.models.len()))
    } else {
        spec_build(s.nodes, 0, s.models.len(), s.node_chunks)
    };
    match graph {
        None => Err(VoxErrorKind::InvalidScene),
        Some(g) => Ok(SceneView { palette: s.palette, models: s.models, graph: g, layers: s.layers }),
    }
}

/// Assembly of a chunk sequence into a scene.
pub open spec fn spec_assemble(items: Seq<Result<Chunk, VoxErrorKind>>) -> Result<SceneView, VoxErrorKind> {
    match spec_fold(items) {
        Err(e) => Err(e),
        Ok(s) => spec_finish(s),
    }
}

/// The view of the result of assembly.
pub open spec fn scene_result(r: Result<VoxScene, VoxErrorKind>) -> Result<SceneView, VoxErrorKind> {
    match r {
        Ok(s) => Ok(scene_view(s)),
        Err(e) => Err(e),
    }
}

/// Builds the scene tree under transform node `node_id` (see
/// [`spec_build`]). Returns `None` if a missing node or model is
/// referenced, the node is not a transform, or nesting exceeds `depth`.
pub fn build_scene(scene_nodes: &HashMap<u32, ParsedNode>, node_id: u32, num_models: usize, depth: usize) -> (r: Option<SceneNode>)
    ensures
        match r {
            Some(n) => spec_build(scene_nodes@, node_id, num_models as nat, depth as nat) == Some(node_view(n)),
            None => spec_build(scene_nodes@, node_id, num_models as nat, depth as nat) is None,
        },
    decreases depth, 0nat,
{
    if depth == 0 {
        return None;
    }
    match scene_nodes.get(&node_id) {
        Some(ParsedNode::Transform(n)) => {
            let node_type = match scene_nodes.get(&n.child_node_id) {
                Some(ParsedNode::Group(group_node)) => {
                    match build_children(scene_nodes, &group_node.child_nodes, num_models, depth - 1) {
                        Some(children) => NodeType::Group(children),
                        None => return None,
                    }
                },
                Some(ParsedNode::Shape(s)) => {
                    if (s.model_id as usize) < num_models {
                        NodeType::Shape(s.model_id)
                    } else {
                        return None;
                    }
                },
                _ => {
                    return None;
                },
            };
            Some(SceneNode { rotation: n.rotation, translation: n.translation, layer_id: n.layer_id, node_type })
        },
        _ => None,
    }
}

/// Builds the scene trees under the transform nodes `ids`, in order (see
/// [`spec_build_list`]).
pub fn build_children(scene_nodes: &HashMap<u32, ParsedNode>, ids: &Vec<u32>, num_models: usize, depth: usize) -> (r: Option<Vec<SceneNode>>)
    ensures
        match r {
            Some(cs) => spec_build_list(scene_nodes@, ids@, num_models as nat, depth as nat) == Some(node_views(cs@)),
            None => spec_build_list(scene_nodes@, ids@, num_models as nat, depth as nat) is None,
        },
    decreases depth, 1nat,
{
    let mut children: Vec<SceneNode> = Vec::new();
    let mut i: usize = 0;
    assert(ids@.subrange(0, 0) =~= Seq::<u32>::empty());
    while i < ids.len()
        invariant
            i <= ids@.len(),
            spec_build_list(scene_nodes@, ids@.subrange(0, i as int), num_models as nat, depth as nat)
                == Some(node_views(children@)),
        decreases ids@.len() - i,
    {
        assert(ids@.subrange(0, i + 1).drop_last() =~= ids@.subrange(0, i as int));
        match build_scene(scene_nodes, ids[i], num_models, depth) {
            Some(c) => {
                let ghost before = children@;
                children.push(c);
                assert(children@.drop_last() =~= before);
            },
            None => {
                proof {
                    lemma_build_list_none(scene_nodes@, ids@, i + 1, num_models as nat, depth as nat);
                }
                return None;
            },
        }
        i += 1;
    }
    assert(ids@.subrange(0, ids@.len() as int) =~= ids@);
    Some(children)
}

/// The single-pass state machine that folds the chunks of a file into a
/// scene (see [`spec_step`] and [`spec_finish`]).
pub struct SceneBuilder {
    palette: Vec<Material>,
    models: Vec<Model>,
    pending_size: Option<(u32, u32, u32)>,
    layers: Vec<Layer>,
    nodes: HashMap<u32, ParsedNode>,
    node_chunks: usize,
}

impl SceneBuilder {
    /// The state as plain values.
    pub closed spec fn view(&self) -> BuilderView {
        BuilderView {
            palette: self.palette@,
            models: self.models@.map_values(|m: Model| model_view(m)),
            pending_size: self.pending_size,
            layers: self.layers@.map_values(|l: Layer| layer_view(l)),
            nodes: self.nodes@,
            node_chunks: self.node_chunks as nat,
        }
    }

    /// The palette has its 255 entries.
    pub closed spec fn wf(&self) -> bool {
        self.palette@.len() == 255
    }

    /// The state before the first chunk.
    pub fn new() -> (r: SceneBuilder)
        ensures
            r.wf(),
            r.view() == initial_state(),
    {
        let colors = default_palette();
        let mut palette: Vec<Material> = Vec::new();
        let mut i: usize = 0;
        while i < 255
            invariant
                i <= 255,
                colors@.len() == 255,
                forall|k: int| 0 <= k < 255 ==> colors@[k] == default_color(k),
                palette@ == Seq::new(i as nat, |k: int| Material { rgba: default_color(k), mat_type: MaterialType::Diffuse }),
            decreases 255 - i,
        {
            palette.push(Material { rgba: colors[i], mat_type: MaterialType::Diffuse });
            i += 1;
            assert(palette@ =~= Seq::new(i as nat, |k: int| Material { rgba: default_color(k), mat_type: MaterialType::Diffuse }));
        }
        let r = SceneBuilder {
            palette,
            models: Vec::new(),
            pending_size: None,
            layers: Vec::new(),
            nodes: HashMap::new(),
            node_chunks: 0,
        };
        assert(r.view().models =~= Seq::<((u32, u32, u32), Seq<(u8, u8, u8, u8)>)>::empty());
        assert(r.view().layers =~= Seq::<(Seq<char>, bool)>::empty());
        r
    }

    /// Takes one chunk, or the failure to decode it.
    pub fn step(&mut self, item: Result<Chunk, VoxErrorKind>) -> (r: Result<(), VoxErrorKind>)
        requires
            old(self).wf(),
            old(self).view().node_chunks < usize::MAX,
        ensures
            final(self).wf(),
            match r {
                Ok(_) => spec_step(old(self).view(), item) == Ok::<BuilderView, VoxErrorKind>(final(self).view()),
                Err(e) => spec_step(old(self).view(), item) == Err::<BuilderView, VoxErrorKind>(e),
            },
    {
        let ghost s = self.view();
        match item {
            Err(e) => {
                match e {
                    VoxErrorKind::UnknownChunk(_) => Ok(()),
                    VoxErrorKind::InvalidMatlId(id) => if id == 0 || id == 256 { Ok(()) } else { Err(e) },
                    _ => Err(e),
                }
            },
            Ok(c) => match c {
                Chunk::PACK(_) => Ok(()),
                Chunk::SIZE(sz) => {
                    if self.pending_size.is_some() {
                        return Err(VoxErrorKind::NonAlternatingModel);
                    }
                    self.pending_size = Some(sz);
                    Ok(())
                },
                Chunk::XYZI(v) => {
                    match self.pending_size {
                        None => Err(VoxErrorKind::NonAlternatingModel),
                        Some(sz) => {
                            self.models.push(Model { size: sz, xyzi: v });
                            self.pending_size = None;
                            assert(self.view().models =~= s.models.push((sz, v@)));
                            Ok(())
                        },
                    }
                },
                Chunk::RGBA(c) => {
                    let mut i: usize = 0;
                    while i < 255
                        invariant
                            i <= 255,
                            self.palette@.len() == 255,
                            s.palette.len() == 255,
                            self.models == old(self).models,
                            self.pending_size == old(self).pending_size,
                            self.layers == old(self).layers,
                            self.nodes == old(self).nodes,
                            self.node_chunks == old(self).node_chunks,
                            s == old(self).view(),
                            forall|k: int| 0 <= k < 255 ==> #[trigger] self.palette@[k] == (if k < i { with_colors(s.palette, c@)[k] } else { s.palette[k] }),
                        decreases 255 - i,
                    {
                        if i < c.len() {
                            let m = Material { rgba: c[i], mat_type: self.palette[i].mat_type };
                            self.palette[i] = m;
                        }
                        i += 1;
                    }
                    assert(self.palette@ =~= with_colors(s.palette, c@));
                    assert(self.view() =~= BuilderView { palette: with_colors(s.palette, c@), ..s });
                    Ok(())
                },
                Chunk::MATT(m) => {
                    if m.id != 0 {
                        let k = (m.id - 1) as usize;
                        let t = matt2material(&m);
                        let entry = Material { rgba: self.palette[k].rgba, mat_type: t };
                        self.palette[k] = entry;
                    }
                    assert(self.palette@ =~= with_material(s.palette, m.id, spec_matt2material(m)));
                    Ok(())
                },
                Chunk::MATL(m) => {
                    if m.id != 0 {
                        let k = (m.id - 1) as usize;
                        let t = matl2material(&m);
                        let entry = Material { rgba: self.palette[k].rgba, mat_type: t };
                        self.palette[k] = entry;
                    }
                    assert(self.palette@ =~= with_material(s.palette, m.id, spec_matl2material(m)));
                    Ok(())
                },
                Chunk::LAYR(l) => {
                    let uid = l.id as usize;
                    let ghost old_layers = s.layers;
                    while self.layers.len() <= uid
                        invariant
                            self.palette == old(self).palette,
                            self.models == old(self).models,
                            self.pending_size == old(self).pending_size,
                            self.nodes == old(self).nodes,
                            self.node_chunks == old(self).node_chunks,
                            s == old(self).view(),
                            old_layers == s.layers,
                            self.layers@.len() >= old_layers.len(),
                            self.layers@.len() <= (if old_layers.len() <= uid { uid + 1 } else { old_layers.len() as int }),
                            self.layers@.map_values(|x: Layer| layer_view(x)) =~= old_layers
                                + Seq::new((self.layers@.len() - old_layers.len()) as nat, |i: int| (Seq::<char>::empty(), false)),
                        decreases uid + 1 - self.layers@.len(),
                    {
                        let ghost before = self.layers@;
                        let fresh = Layer { name: String::new(), is_hidden: false };
                        assert(layer_view(fresh) == (Seq::<char>::empty(), false));
                        self.layers.push(fresh);
                        assert(self.layers@.map_values(|x: Layer| layer_view(x)) =~= before.map_values(|x: Layer| layer_view(x)).push((Seq::<char>::empty(), false)));
                        assert(self.layers@.map_values(|x: Layer| layer_view(x)) =~= old_layers
                            + Seq::new((self.layers@.len() - old_layers.len()) as nat, |i: int| (Seq::<char>::empty(), false)));
                    }
                    let name = match l.name {
                        Some(n) => n,
                        None => String::new(),
                    };
                    let ghost name_v = name@;
                    self.layers[uid] = Layer { name, is_hidden: l.is_hidden };
                    proof {
                        let grown = if old_layers.len() <= l.id {
                            old_layers + Seq::new((l.id + 1 - old_layers.len()) as nat, |i: int| (Seq::<char>::empty(), false))
                        } else {
                            old_layers
                        };
                        assert(self.layers@.map_values(|x: Layer| layer_view(x)) =~= grown.update(uid as int, (name_v, l.is_hidden)));
                    }
                    Ok(())
                },
                Chunk::NTRN(t) => {
                    let id = t.node_id;
                    self.nodes.insert(id, ParsedNode::Transform(t));
                    self.node_chunks = self.node_chunks + 1;
                    Ok(())
                },
                Chunk::NGRP(g) => {
                    let id = g.node_id;
                    self.nodes.insert(id, ParsedNode::Group(g));
                    self.node_chunks = self.node_chunks + 1;
                    Ok(())
                },
                Chunk::NSHP(n) => {
                    let id = n.node_id;
                    self.nodes.insert(id, ParsedNode::Shape(n));
                    self.node_chunks = self.node_chunks + 1;
                    Ok(())
                },
            },
        }
    }

    /// Composes the scene from the final state.
    pub fn finish(self) -> (r: Result<VoxScene, VoxErrorKind>)
        requires
            self.wf(),
        ensures
            scene_result(r) == spec_finish(self.view()),
    {
        let ghost s = self.view();
        let graph = if self.nodes.is_empty() {
            SceneNode {
                rotation: MatRowCols::identity(),
                translation: (0, 0, 0),
                layer_id: Some(0),
                node_type: if self.models.len() > 0 { NodeType::Shape(0) } else { NodeType::Group(Vec::new()) },
            }
        } else {
            match build_scene(&self.nodes, 0, self.models.len(), self.node_chunks) {
                Some(n) => n,
                None => return Err(VoxErrorKind::InvalidScene),
            }
        };
        proof {
            if self.nodes@.is_empty() {
                assert(node_views(Seq::<SceneNode>::empty()) =~= Seq::<SceneNodeView>::empty());
            }
        }
        let r = VoxScene { palette: self.palette, models: self.models, graph, layers: self.layers };
        Ok(r)
    }
}

/// Converts raw chunks into a scene.
///
/// Each chunk is decoded ([`chunk`]) and handed to a [`SceneBuilder`].
/// Unknown chunks, and `MATL` chunks for palette index 0 or 256, are
/// skipped; any other failure ends assembly with that error.
pub fn to_custom<F: Fn(&str) -> Option<u32>>(chunks: &Vec<RawChunk>, read_f32: &F) -> (r: Result<VoxScene, VoxErrorKind>)
    requires
        forall|x: &str| #[trigger] read_f32.requires((x,)),
    ensures
        exists|items: Seq<Result<Chunk, VoxErrorKind>>| decoded_prefix(*read_f32, chunks@, items)
            && #[trigger] spec_assemble(items) == scene_result(r),
{
    let mut b = SceneBuilder::new();
    let ghost mut items: Seq<Result<Chunk, VoxErrorKind>> = Seq::empty();
    let mut i: usize = 0;
    while i < chunks.len()
        invariant
            i <= chunks@.len(),
            forall|x: &str| #[trigger] read_f32.requires((x,)),
            b.wf(),
            b.view().node_chunks <= i,
            items.len() == i,
            decodings(*read_f32, chunks@.subrange(0, i as int), items),
            spec_fold(items) == Ok::<BuilderView, VoxErrorKind>(b.view()),
        decreases chunks@.len() - i,
    {
        let raw = &chunks[i];
        let item = chunk(raw.tag, raw.payload_data.as_slice(), read_f32);
        let ghost it = item;
        proof {
            assert(decoding(*read_f32, chunks@[i as int], it));
            let nx = items.push(it);
            assert(nx.drop_last() =~= items);
            assert(chunks@.subrange(0, i + 1).drop_last() =~= chunks@.subrange(0, i as int));
            items = nx;
        }
        match b.step(item) {
            Ok(_) => {},
            Err(e) => {
                assert(items.len() < chunks@.len() ==> spec_fold(items) is Err);
                assert(decoded_prefix(*read_f32, chunks@, items));
                assert(spec_assemble(items) == scene_result(Err::<VoxScene, VoxErrorKind>(e)));
                return Err(e);
            },
        }
        i += 1;
    }
    assert(chunks@.subrange(0, i as int) =~= chunks@);
    let r = b.finish();
    assert(decoded_prefix(*read_f32, chunks@, items));
    assert(spec_assemble(items) == scene_result(r));
    r
}

/// `items` are outcomes of decoding a prefix of `cs`, one by one; a prefix
/// shorter than `cs` ends assembly with an error.
pub open spec fn decoded_prefix<F: Fn(&str) -> Option<u32>>(read_f32: F, cs: Seq<RawChunk>, items: Seq<Result<Chunk, VoxErrorKind>>) -> bool {
    &&& items.len() <= cs.len()
    &&& decodings(read_f32, cs.subrange(0, items.len() as int), items)
    &&& (items.len() < cs.len() ==> spec_fold(items) is Err)
}

/// `item` is an outcome of decoding the raw chunk `c`.
pub open spec fn decoding<F: Fn(&str) -> Option<u32>>(read_f32: F, c: RawChunk, item: Result<Chunk, VoxErrorKind>) -> bool {
    match item {
        Ok(ch) => chunk_decodes(read_f32, c.tag@, c.payload_data@, ch),
        Err(e) => chunk_fails(read_f32, c.tag, c.payload_data@, e),
    }
}

/// `items` are outcomes of decoding the raw chunks `cs`, one by one.
pub open spec fn decodings<F: Fn(&str) -> Option<u32>>(read_f32: F, cs: Seq<RawChunk>, items: Seq<Result<Chunk, VoxErrorKind>>) -> bool
    decreases cs.len(),
{
    if cs.len() == 0 || items.len() == 0 {
        cs.len() == items.len()
    } else {
        decoding(read_f32, cs.last(), items.last()) && decodings(read_f32, cs.drop_last(), items.drop_last())
    }
}

/// A chunk as plain values.
pub enum ChunkView {
    PACK(u32),
    SIZE((u32, u32, u32)),
    XYZI(Seq<(u8, u8, u8, u8)>),
    RGBA(Seq<(u8, u8, u8, u8)>),
    MATT(Matt),
    NTRN(TransformView),
    NGRP(GroupView),
    NSHP(ShapeView),
    MATL(Matl),
    LAYR(LayrView),
}

/// The view of a chunk.
pub open spec fn chunk_view(c: Chunk) -> ChunkView {
    match c {
        Chunk::PACK(n) => ChunkView::PACK(n),
        Chunk::SIZE(s) => ChunkView::SIZE(s),
        Chunk::XYZI(v) => ChunkView::XYZI(v@),
        Chunk::RGBA(v) => ChunkView::RGBA(v@),
        Chunk::MATT(m) => ChunkView::MATT(m),
        Chunk::NTRN(t) => ChunkView::NTRN(transform_view(t)),
        Chunk::NGRP(g) => ChunkView::NGRP(group_view(g)),
        Chunk::NSHP(n) => ChunkView::NSHP(shape_view(n)),
        Chunk::MATL(m) => ChunkView::MATL(m),
        Chunk::LAYR(l) => ChunkView::LAYR(layr_view(l)),
    }
}

/// The views of a chunk sequence.
pub open spec fn chunks_view(cs: Seq<Chunk>) -> Seq<ChunkView> {
    cs.map_values(|c: Chunk| chunk_view(c))
}

/// The number of scene nodes in a tree.
pub open spec fn node_count(n: SceneNodeView) -> nat
    decreases n,
{
    match n.node_type {
        NodeTypeView::Shape(_) => 1,
        NodeTypeView::Group(cs) => 1 + nodes_count(cs),
    }
}

/// The number of scene nodes in a sequence of trees.
pub open spec fn nodes_count(cs: Seq<SceneNodeView>) -> nat
    decreases cs,
{
    if cs.len() == 0 { 0 } else { nodes_count(cs.drop_last()) + node_count(cs.last()) }
}

/// The chunks of a scene tree whose first node id is `id`, and the next free
/// id. Each node is a `nTRN` (id `id`) followed by a `nSHP` or a `nGRP` (id
/// `id + 1`); a group's children follow it, depth first.
pub open spec fn spec_export(n: SceneNodeView, id: nat) -> (Seq<ChunkView>, nat)
    decreases n,
{
    let trn = ChunkView::NTRN(TransformView {
        node_id: id as u32,
        name: None,
        is_hidden: false,
        child_node_id: (id + 1) as u32,
        layer_id: n.layer_id,
        rotation: n.rotation,
        translation: n.translation,
    });
    match n.node_type {
        NodeTypeView::Shape(m) => (seq![trn, ChunkView::NSHP(ShapeView {
            node_id: (id + 1) as u32,
            attributes: Seq::empty(),
            model_id: m,
            model_attributes: Seq::empty(),
        })], id + 2),
        NodeTypeView::Group(cs) => {
            let (body, roots, next) = spec_export_list(cs, id + 2);
            (seq![trn, ChunkView::NGRP(GroupView { node_id: (id + 1) as u32, attributes: Seq::empty(), child_nodes: roots })] + body, next)
        },
    }
}

/// The chunks of a sequence of trees from id `id`, the ids of their roots,
/// and the next free id.
pub open spec fn spec_export_list(cs: Seq<SceneNodeView>, id: nat) -> (Seq<ChunkView>, Seq<u32>, nat)
    decreases cs,
{
    if cs.len() == 0 {
        (Seq::empty(), Seq::empty(), id)
    } else {
        let (body, roots, next) = spec_export_list(cs.drop_last(), id);
        let (b2, next2) = spec_export(cs.last(), next);
        (body + b2, roots.push(next as u32), next2)
    }
}

/// Exporting uses two ids per node.
pub proof fn lemma_export_ids(n: SceneNodeView, id: nat)
    ensures
        spec_export(n, id).1 == id + 2 * node_count(n),
    decreases n,
{
    match n.node_type {
        NodeTypeView::Shape(_) => {},
        NodeTypeView::Group(cs) => {
            lemma_export_list_ids(cs, id + 2);
        },
    }
}

/// Exporting a sequence uses two ids per node.
pub proof fn lemma_export_list_ids(cs: Seq<SceneNodeView>, id: nat)
    ensures
        spec_export_list(cs, id).2 == id + 2 * nodes_count(cs),
    decreases cs,
{
    if cs.len() > 0 {
        lemma_export_list_ids(cs.drop_last(), id);
        lemma_export_ids(cs.last(), spec_export_list(cs.drop_last(), id).2);
    }
}

/// The views of a prefix are the prefix of the views.
pub proof fn lemma_node_views_prefix(ns: Seq<SceneNode>, k: int)
    requires
        0 <= k <= ns.len(),
    ensures
        node_views(ns).len() == ns.len(),
        node_views(ns.subrange(0, k)) == node_views(ns).subrange(0, k),
        forall|j: int| 0 <= j < ns.len() ==> #[trigger] node_views(ns)[j] == node_view(ns[j]),
    decreases ns.len(),
{
    if ns.len() > 0 {
        if k == ns.len() {
            assert(ns.subrange(0, k) =~= ns);
            lemma_node_views_prefix(ns.drop_last(), k - 1);
        } else {
            lemma_node_views_prefix(ns.drop_last(), k);
            assert(ns.drop_last().subrange(0, k) =~= ns.subrange(0, k));
        }
        assert forall|j: int| 0 <= j < ns.len() implies #[trigger] node_views(ns)[j] == node_view(ns[j]) by {
            if j < ns.len() - 1 {
                assert(node_views(ns.drop_last())[j] == node_view(ns.drop_last()[j]));
            }
        }
        assert(node_views(ns.subrange(0, k)) =~= node_views(ns).subrange(0, k));
    } else {
        assert(ns.subrange(0, k) =~= ns);
    }
}

/// A prefix has no more nodes than the whole sequence.
pub proof fn lemma_nodes_count_prefix(cs: Seq<SceneNodeView>, k: int)
    requires
        0 <= k <= cs.len(),
    ensures
        nodes_count(cs.subrange(0, k)) <= nodes_count(cs),
    decreases cs.len(),
{
    if k < cs.len() {
        lemma_nodes_count_prefix(cs.drop_last(), k);
        assert(cs.drop_last().subrange(0, k) =~= cs.subrange(0, k));
    } else {
        assert(cs.subrange(0, k) =~= cs);
    }
}

/// Writes the scene tree as chunks, depth first, numbering its nodes from
/// `*i` (see [`spec_export`]); `*i` ends at the next free id. Returns the id
/// of the tree's root node.
pub fn export_scene(dst: &mut Vec<Chunk>, i: &mut u32, scene: &SceneNode) -> (r: u32)
    requires
        *old(i) + 2 * node_count(node_view(*scene)) <= u32::MAX,
    ensures
        r == *old(i),
        chunks_view(final(dst)@) == chunks_view(old(dst)@) + spec_export(node_view(*scene), *old(i) as nat).0,
        *final(i) as nat == spec_export(node_view(*scene), *old(i) as nat).1,
    decreases scene,
{
    let node_id = *i;
    proof {
        lemma_export_ids(node_view(*scene), node_id as nat);
    }
    let trn = TransformNode {
        node_id,
        name: None,
        is_hidden: false,
        child_node_id: node_id + 1,
        layer_id: scene.layer_id,
        rotation: scene.rotation,
        translation: scene.translation,
    };
    let ghost d0 = dst@;
    match &scene.node_type {
        NodeType::Shape(model_id) => {
            dst.push(Chunk::NTRN(trn));
            dst.push(Chunk::NSHP(ShapeNode {
                node_id: node_id + 1,
                attributes: Vec::new(),
                model_id: *model_id,
                model_attributes: Vec::new(),
            }));
            *i = node_id + 2;
            proof {
                assert(dict_view(Seq::<(String, String)>::empty()) =~= Seq::empty());
                assert(chunks_view(dst@) =~= chunks_view(d0) + spec_export(node_view(*scene), node_id as nat).0);
            }
        },
        NodeType::Group(children) => {
            *i = node_id + 2;
            let mut body: Vec<Chunk> = Vec::new();
            let mut roots: Vec<u32> = Vec::new();
            let mut k: usize = 0;
            let ghost cs = node_views(children@);
            proof {
                assert(node_view(*scene).node_type == NodeTypeView::Group(cs));
                lemma_node_views_prefix(children@, 0);
                assert(cs.subrange(0, 0) =~= Seq::<SceneNodeView>::empty());
                assert(chunks_view(body@) =~= Seq::<ChunkView>::empty());
                assert(roots@ =~= Seq::<u32>::empty());
            }
            while k < children.len()
                invariant
                    k <= children@.len(),
                    scene.node_type == NodeType::Group(*children),
                    cs == node_views(children@),
                    cs.len() == children@.len(),
                    node_count(node_view(*scene)) == 1 + nodes_count(cs),
                    node_id + 2 * node_count(node_view(*scene)) <= u32::MAX,
                    spec_export_list(cs.subrange(0, k as int), (node_id + 2) as nat)
                        == (chunks_view(body@), roots@, *i as nat),
                decreases children@.len() - k,
            {
                let ghost pre = cs.subrange(0, k as int);
                let ghost pre1 = cs.subrange(0, k + 1);
                proof {
                    lemma_node_views_prefix(children@, k + 1);
                    assert(pre1.drop_last() =~= pre);
                    assert(pre1.last() == cs[k as int]);
                    assert(cs[k as int] == node_view(children@[k as int]));
                    lemma_export_list_ids(pre, (node_id + 2) as nat);
                    lemma_nodes_count_prefix(cs, k + 1);
                    assert(nodes_count(pre1) == nodes_count(pre) + node_count(cs[k as int]));
                }
                proof {
                    vstd::std_specs::vec::axiom_vec_index_decreases(*children, k as int);
                    assert(scene.node_type == NodeType::Group(*children));
                    assert(decreases_to!(*scene => scene.node_type));
                    assert(decreases_to!(scene.node_type => *children));
                    assert(decreases_to!(*scene => children[k as int]));
                }
                let ghost b0 = chunks_view(body@);
                let ghost r0 = roots@;
                let ghost i0 = *i;
                let root = export_scene(&mut body, i, &children[k]);
                roots.push(root);
                proof {
                    assert(roots@ =~= r0.push(i0));
                }
                k += 1;
            }
            proof {
                assert(cs.subrange(0, children@.len() as int) =~= cs);
            }
            dst.push(Chunk::NTRN(trn));
            dst.push(Chunk::NGRP(GroupNode { node_id: node_id + 1, attributes: Vec::new(), child_nodes: roots }));
            let ghost d1 = dst@;
            let ghost bv = body@;
            dst.append(&mut body);
            proof {
                assert(dict_view(Seq::<(String, String)>::empty()) =~= Seq::empty());
                assert(chunks_view(d1 + bv) =~= chunks_view(d1) + chunks_view(bv));
                assert(chunks_view(d1) =~= chunks_view(d0) + seq![chunk_view(d1[d1.len() - 2]), chunk_view(d1[d1.len() - 1])]);
                assert(chunks_view(dst@) =~= chunks_view(d0) + spec_export(node_view(*scene), node_id as nat).0);
            }
        },
    }
    node_id
}

/// The `MATL` chunk for palette index `id` with material `t`: each property
/// that equals its default is left out.
pub open spec fn spec_material2matl(id: u8, t: MaterialType) -> Matl {
    let base = Matl {
        id,
        prop_type: MatlType::Diffuse,
        prop_weight: None,
        prop_rough: None,
        prop_spec: None,
        prop_ior: None,
        prop_att: None,
        prop_flux: None,
        prop_density: None,
        prop_alpha: None,
        prop_emit: None,
        prop_ldr: None,
        prop_metal: None,
        prop_plastic: false,
    };
    match t {
        MaterialType::Diffuse => base,
        MaterialType::Metal(m) => Matl {
            prop_type: MatlType::Metal,
            prop_rough: elided(m.prop_rough, DEFAULT_ROUGH),
            prop_ior: elided(m.prop_ior, DEFAULT_IOR),
            prop_metal: elided(m.prop_metal, DEFAULT_METAL),
            ..base
        },
        MaterialType::Glass(m) => Matl {
            prop_type: MatlType::Glass,
            prop_rough: elided(m.prop_rough, DEFAULT_ROUGH),
            prop_ior: elided(m.prop_ior, DEFAULT_IOR),
            prop_weight: elided(m.prop_weight, DEFAULT_WEIGHT),
            ..base
        },
        MaterialType::Emit(m) => Matl {
            prop_type: MatlType::Emit,
            prop_emit: elided(m.prop_emit, DEFAULT_EMIT),
            prop_flux: elided(m.prop_flux, DEFAULT_FLUX),
            prop_ldr: elided(m.prop_ldr, DEFAULT_LDR),
            ..base
        },
        MaterialType::Blend(m) => Matl {
            prop_type: MatlType::Blend,
            prop_rough: elided(m.prop_rough, DEFAULT_ROUGH),
            prop_metal: elided(m.prop_metal, DEFAULT_METAL),
            prop_ior: elided(m.prop_ior, DEFAULT_IOR),
            prop_alpha: elided(m.prop_alpha, DEFAULT_ALPHA),
            ..base
        },
        MaterialType::Media => Matl { prop_type: MatlType::Media, ..base },
    }
}

/// Converts a material back into a `MATL` chunk (see [`spec_material2matl`]).
pub fn material2matl(id: u8, t: &MaterialType) -> (r: Matl)
    ensures
        r == spec_material2matl(id, *t),
{
    match t {
        MaterialType::Diffuse => Matl::new(id, MatlType::Diffuse),
        MaterialType::Metal(m) => {
            let mut out = Matl::new(id, MatlType::Metal);
            out.prop_rough = from_val(DEFAULT_ROUGH, m.prop_rough);
            out.prop_ior = from_val(DEFAULT_IOR, m.prop_ior);
            out.prop_metal = from_val(DEFAULT_METAL, m.prop_metal);
            out
        },
        MaterialType::Glass(m) => {
            let mut out = Matl::new(id, MatlType::Glass);
            out.prop_rough = from_val(DEFAULT_ROUGH, m.prop_rough);
            out.prop_ior = from_val(DEFAULT_IOR, m.prop_ior);
            out.prop_weight = from_val(DEFAULT_WEIGHT, m.prop_weight);
            out
        },
        MaterialType::Emit(m) => {
            let mut out = Matl::new(id, MatlType::Emit);
            out.prop_emit = from_val(DEFAULT_EMIT, m.prop_emit);
            out.prop_flux = from_val(DEFAULT_FLUX, m.prop_flux);
            out.prop_ldr = from_val(DEFAULT_LDR, m.prop_ldr);
            out
        },
        MaterialType::Blend(m) => {
            let mut out = Matl::new(id, MatlType::Blend);
            out.prop_rough = from_val(DEFAULT_ROUGH, m.prop_rough);
            out.prop_metal = from_val(DEFAULT_METAL, m.prop_metal);
            out.prop_ior = from_val(DEFAULT_IOR, m.prop_ior);
            out.prop_alpha = from_val(DEFAULT_ALPHA, m.prop_alpha);
            out
        },
        MaterialType::Media => Matl::new(id, MatlType::Media),
    }
}

/// Reading back the `MATL` chunk of a material gives the material: a
/// property left out because it equals its default reads as that default.
pub proof fn lemma_material_round_trip(id: u8, t: MaterialType)
    ensures
        spec_matl2material(spec_material2matl(id, t)) == t,
        spec_material2matl(id, t).id == id,
{
}

/// The chunks of the models: a `SIZE` then an `XYZI` for each.
pub open spec fn models_chunks(ms: Seq<((u32, u32, u32), Seq<(u8, u8, u8, u8)>)>) -> Seq<ChunkView> {
    Seq::new(2 * ms.len(), |j: int| if j % 2 == 0 { ChunkView::SIZE(ms[j / 2].0) } else { ChunkView::XYZI(ms[j / 2].1) })
}

/// The colors of the palette.
pub open spec fn palette_colors(p: Seq<Material>) -> Seq<(u8, u8, u8, u8)> {
    p.map_values(|m: Material| m.rgba)
}

/// A `LAYR` for each layer, by index.
pub open spec fn layers_chunks(ls: Seq<(Seq<char>, bool)>) -> Seq<ChunkView> {
    Seq::new(ls.len(), |i: int| ChunkView::LAYR(LayrView { id: i as u32, name: Some(ls[i].0), is_hidden: ls[i].1 }))
}

/// A `MATL` for each of the 255 palette entries.
pub open spec fn materials_chunks(p: Seq<Material>) -> Seq<ChunkView> {
    Seq::new(255, |i: int| ChunkView::MATL(spec_material2matl((i + 1) as u8, p[i].mat_type)))
}

/// The chunks of a scene, in the order that common producers use: models,
/// palette, scene graph (node ids from 0), layers, materials. No `PACK`.
pub open spec fn spec_flatten(s: SceneView) -> Seq<ChunkView> {
    models_chunks(s.models) + seq![ChunkView::RGBA(palette_colors(s.palette))] + spec_export(s.graph, 0).0
        + layers_chunks(s.layers) + materials_chunks(s.palette)
}

/// A well-formed scene: 255 palette entries, and few enough layers and
/// nodes for their ids to fit a `u32`.
pub open spec fn scene_fits(s: VoxScene) -> bool {
    &&& s.palette@.len() == 255
    &&& s.layers@.len() <= u32::MAX
    &&& 2 * node_count(node_view(s.graph)) <= u32::MAX
}

/// A copy of the voxels.
fn copy_quads(v: &Vec<(u8, u8, u8, u8)>) -> (r: Vec<(u8, u8, u8, u8)>)
    ensures
        r@ == v@,
{
    let mut r: Vec<(u8, u8, u8, u8)> = Vec::new();
    let mut i: usize = 0;
    while i < v.len()
        invariant
            i <= v@.len(),
            r@ == v@.subrange(0, i as int),
        decreases v@.len() - i,
    {
        r.push(v[i]);
        i += 1;
        assert(r@ =~= v@.subrange(0, i as int));
    }
    assert(v@.subrange(0, v@.len() as int) =~= v@);
    r
}

/// Converts a scene back into chunks (see [`spec_flatten`]).
pub fn from_custom(s: &VoxScene) -> (r: Vec<Chunk>)
    requires
        scene_fits(*s),
    ensures
        chunks_view(r@) == spec_flatten(scene_view(*s)),
{
    let ghost sv = scene_view(*s);
    let mut chunks: Vec<Chunk> = Vec::new();
    let mut k: usize = 0;
    while k < s.models.len()
        invariant
            k <= s.models@.len(),
            sv == scene_view(*s),
            chunks_view(chunks@) =~= models_chunks(sv.models.subrange(0, k as int)),
        decreases s.models@.len() - k,
    {
        let m = &s.models[k];
        let ghost before = chunks@;
        chunks.push(Chunk::SIZE(m.size));
        chunks.push(Chunk::XYZI(copy_quads(&m.xyzi)));
        proof {
            assert(sv.models[k as int] == model_view(*m));
            let a = sv.models.subrange(0, k as int);
            let b = sv.models.subrange(0, k + 1);
            assert(chunks_view(chunks@) =~= chunks_view(before) + seq![ChunkView::SIZE(m.size), ChunkView::XYZI(m.xyzi@)]);
            assert forall|j: int| 0 <= j < 2 * b.len() implies #[trigger] models_chunks(b)[j]
                == (models_chunks(a) + seq![ChunkView::SIZE(m.size), ChunkView::XYZI(m.xyzi@)])[j] by {
                if j < 2 * k {
                    assert(j / 2 < k);
                    assert(b[j / 2] == a[j / 2]);
                } else if j == 2 * k {
                    assert(j / 2 == k && j % 2 == 0);
                } else {
                    assert(j / 2 == k && j % 2 == 1);
                }
            }
            assert(models_chunks(b) =~= models_chunks(a) + seq![ChunkView::SIZE(m.size), ChunkView::XYZI(m.xyzi@)]);
        }
        k += 1;
    }
    assert(sv.models.subrange(0, s.models@.len() as int) =~= sv.models);
    let ghost c1 = chunks_view(chunks@);
    let mut rgba: Vec<(u8, u8, u8, u8)> = Vec::new();
    let mut i: usize = 0;
    while i < 255
        invariant
            i <= 255,
            s.palette@.len() == 255,
            rgba@ =~= palette_colors(s.palette@.subrange(0, i as int)),
        decreases 255 - i,
    {
        rgba.push(s.palette[i].rgba);
        i += 1;
    }
    assert(s.palette@.subrange(0, 255) =~= s.palette@);
    chunks.push(Chunk::RGBA(rgba));
    let ghost c2 = chunks_view(chunks@);
    assert(c2 =~= c1 + seq![ChunkView::RGBA(palette_colors(sv.palette))]);
    let mut next: u32 = 0;
    export_scene(&mut chunks, &mut next, &s.graph);
    let ghost c3 = chunks_view(chunks@);
    let mut l: usize = 0;
    while l < s.layers.len()
        invariant
            l <= s.layers@.len(),
            s.layers@.len() <= u32::MAX,
            sv == scene_view(*s),
            chunks_view(chunks@) =~= c3 + layers_chunks(sv.layers.subrange(0, l as int)),
        decreases s.layers@.len() - l,
    {
        let layer = &s.layers[l];
        let ghost before = chunks@;
        chunks.push(Chunk::LAYR(Layr { id: l as u32, name: Some(layer.name.clone()), is_hidden: layer.is_hidden }));
        proof {
            assert(sv.layers[l as int] == layer_view(*layer));
            let lv = ChunkView::LAYR(LayrView { id: l as u32, name: Some(layer.name@), is_hidden: layer.is_hidden });
            assert(chunks_view(chunks@) =~= chunks_view(before).push(lv));
            assert(layers_chunks(sv.layers.subrange(0, l + 1)) =~= layers_chunks(sv.layers.subrange(0, l as int)).push(lv));
        }
        l += 1;
    }
    assert(sv.layers.subrange(0, s.layers@.len() as int) =~= sv.layers);
    let ghost c4 = chunks_view(chunks@);
    let mut p: usize = 0;
    while p < 255
        invariant
            p <= 255,
            s.palette@.len() == 255,
            sv == scene_view(*s),
            chunks_view(chunks@) =~= c4 + materials_chunks(sv.palette).subrange(0, p as int),
        decreases 255 - p,
    {
        let ghost before = chunks@;
        chunks.push(Chunk::MATL(material2matl((p + 1) as u8, &s.palette[p].mat_type)));
        proof {
            let mc = materials_chunks(sv.palette);
            assert(chunks_view(chunks@) =~= chunks_view(before).push(mc[p as int]));
            assert(mc.subrange(0, p + 1) =~= mc.subrange(0, p as int).push(mc[p as int]));
        }
        p += 1;
    }
    assert(materials_chunks(sv.palette).subrange(0, 255) =~= materials_chunks(sv.palette));
    chunks
}

/// Once assembly fails, the chunks that follow do not change the error.
pub proof fn lemma_fold_error_stays(items: Seq<Result<Chunk, VoxErrorKind>>, rest: Seq<Result<Chunk, VoxErrorKind>>)
    requires
        spec_fold(items) is Err,
    ensures
        spec_fold(items + rest) == spec_fold(items),
    decreases rest.len(),
{
    if rest.len() == 0 {
        assert(items + rest =~= items);
    } else {
        lemma_fold_error_stays(items, rest.drop_last());
        assert((items + rest).drop_last() =~= items + rest.drop_last());
    }
}

/// A `SIZE` right after a `SIZE` fails assembly with `NonAlternatingModel`,
/// whatever follows.
pub proof fn lemma_size_after_size_fails(a: Chunk, b: Chunk, rest: Seq<Result<Chunk, VoxErrorKind>>)
    requires
        a is SIZE,
        b is SIZE,
    ensures
        spec_assemble(seq![Ok(a), Ok(b)] + rest) == Err::<SceneView, VoxErrorKind>(VoxErrorKind::NonAlternatingModel),
{
    let one = seq![Ok::<Chunk, VoxErrorKind>(a)];
    let head = seq![Ok::<Chunk, VoxErrorKind>(a), Ok(b)];
    assert(head.drop_last() =~= one);
    assert(one.drop_last() =~= Seq::<Result<Chunk, VoxErrorKind>>::empty());
    assert(one.last() == Ok::<Chunk, VoxErrorKind>(a));
    assert(head.last() == Ok::<Chunk, VoxErrorKind>(b));
    assert(spec_fold(one.drop_last()) == Ok::<BuilderView, VoxErrorKind>(initial_state()));
    assert(spec_fold(one) == spec_step(initial_state(), Ok(a)));
    assert(spec_fold(one).unwrap().pending_size is Some);
    assert(spec_fold(head) == spec_step(spec_fold(one).unwrap(), Ok(b)));
    lemma_fold_error_stays(head, rest);
}

/// An `XYZI` without a `SIZE` before it (here: a second `XYZI` after a
/// `SIZE`, `XYZI` pair) fails assembly with `NonAlternatingModel`, whatever
/// follows.
pub proof fn lemma_xyzi_without_size_fails(a: Chunk, b: Chunk, c: Chunk, rest: Seq<Result<Chunk, VoxErrorKind>>)
    requires
        a is SIZE,
        b is XYZI,
        c is XYZI,
    ensures
        spec_assemble(seq![Ok(a), Ok(b), Ok(c)] + rest) == Err::<SceneView, VoxErrorKind>(VoxErrorKind::NonAlternatingModel),
{
    let one = seq![Ok::<Chunk, VoxErrorKind>(a)];
    let two = seq![Ok::<Chunk, VoxErrorKind>(a), Ok(b)];
    let head = seq![Ok::<Chunk, VoxErrorKind>(a), Ok(b), Ok(c)];
    assert(head.drop_last() =~= two);
    assert(two.drop_last() =~= one);
    assert(one.drop_last() =~= Seq::<Result<Chunk, VoxErrorKind>>::empty());
    assert(one.last() == Ok::<Chunk, VoxErrorKind>(a));
    assert(two.last() == Ok::<Chunk, VoxErrorKind>(b));
    assert(head.last() == Ok::<Chunk, VoxErrorKind>(c));
    assert(spec_fold(one.drop_last()) == Ok::<BuilderView, VoxErrorKind>(initial_state()));
    assert(spec_fold(one) == spec_step(initial_state(), Ok(a)));
    assert(spec_fold(one).unwrap().pending_size is Some);
    assert(spec_fold(two) == spec_step(spec_fold(one).unwrap(), Ok(b)));
    assert(spec_fold(two).unwrap().pending_size is None);
    assert(spec_fold(head) == spec_step(spec_fold(two).unwrap(), Ok(c)));
    lemma_fold_error_stays(head, rest);
}

/// A `MATL` chunk for palette index 256 is skipped: the state, palette
/// included, stays as it was, and assembly goes on.
pub proof fn lemma_matl_256_skipped(s: BuilderView)
    ensures
        spec_step(s, Err(VoxErrorKind::InvalidMatlId(256))) == Ok::<BuilderView, VoxErrorKind>(s),
        spec_step(s, Err(VoxErrorKind::InvalidMatlId(0))) == Ok::<BuilderView, VoxErrorKind>(s),
{
}

/// Without scene-graph chunks, a file with at least one model gets a single
/// root node showing model 0.
pub proof fn lemma_no_graph_shows_model_0(s: BuilderView)
    requires
        s.nodes.is_empty(),
        s.models.len() > 0,
    ensures
        spec_finish(s) is Ok,
        spec_finish(s).unwrap().graph.node_type == NodeTypeView::Shape(0),
{
}

/// A root transform whose shape references a model that does not exist
/// fails assembly with `InvalidScene`.
pub proof fn lemma_missing_model_is_invalid(s: BuilderView, t: TransformNode, sh: ShapeNode)
    requires
        s.nodes.contains_key(0),
        s.nodes[0] == ParsedNode::Transform(t),
        s.nodes.contains_key(t.child_node_id),
        s.nodes[t.child_node_id] == ParsedNode::Shape(sh),
        sh.model_id >= s.models.len(),
    ensures
        spec_finish(s) == Err::<SceneView, VoxErrorKind>(VoxErrorKind::InvalidScene),
{
    assert(!s.nodes.is_empty()) by {
        assert(s.nodes.dom().contains(0));
    }
}

/// Assembly of `items` from the state `s`, chunk by chunk; the first error
/// ends it.
pub open spec fn spec_fold_from(s: BuilderView, items: Seq<Result<Chunk, VoxErrorKind>>) -> Result<BuilderView, VoxErrorKind>
    decreases items.len(),
{
    if items.len() == 0 {
        Ok(s)
    } else {
        match spec_fold_from(s, items.drop_last()) {
            Err(e) => Err(e),
            Ok(t) => spec_step(t, items.last()),
        }
    }
}

/// The chunks, each decoded without error.
pub open spec fn all_ok(cs: Seq<Chunk>) -> Seq<Result<Chunk, VoxErrorKind>> {
    cs.map_values(|c: Chunk| Ok::<Chunk, VoxErrorKind>(c))
}

/// Palette `q` with the materials of `p` in its first `k` entries.
pub open spec fn materials_set(q: Seq<Material>, p: Seq<Material>, k: int) -> Seq<Material> {
    Seq::new(q.len(), |i: int| if i < k { Material { rgba: q[i].rgba, mat_type: p[i].mat_type } } else { q[i] })
}

/// Assembling the `MATL` chunks that the flattener writes for palette `p`
/// sets every entry's material back to that of `p`, leaving colors and the
/// rest of the state as they were.
pub proof fn lemma_materials_restored(s: BuilderView, cs: Seq<Chunk>, p: Seq<Material>)
    requires
        s.palette.len() == 255,
        p.len() == 255,
        chunks_view(cs) == materials_chunks(p),
    ensures
        spec_fold_from(s, all_ok(cs)) == Ok::<BuilderView, VoxErrorKind>(BuilderView { palette: materials_set(s.palette, p, 255), ..s }),
{
    lemma_materials_prefix(s, cs, p, 255);
    assert(cs.subrange(0, 255) =~= cs) by {
        assert(chunks_view(cs).len() == 255);
    }
}

proof fn lemma_materials_prefix(s: BuilderView, cs: Seq<Chunk>, p: Seq<Material>, k: int)
    requires
        s.palette.len() == 255,
        p.len() == 255,
        chunks_view(cs) == materials_chunks(p),
        0 <= k <= 255,
    ensures
        spec_fold_from(s, all_ok(cs.subrange(0, k))) == Ok::<BuilderView, VoxErrorKind>(BuilderView { palette: materials_set(s.palette, p, k), ..s }),
    decreases k,
{
    assert(cs.len() == 255) by {
        assert(chunks_view(cs).len() == cs.len());
    }
    if k == 0 {
        assert(all_ok(cs.subrange(0, 0)) =~= Seq::<Result<Chunk, VoxErrorKind>>::empty());
        assert(materials_set(s.palette, p, 0) =~= s.palette);
    } else {
        lemma_materials_prefix(s, cs, p, k - 1);
        let items = all_ok(cs.subrange(0, k));
        assert(items.drop_last() =~= all_ok(cs.subrange(0, k - 1)));
        let c = cs[k - 1];
        assert(items.last() == Ok::<Chunk, VoxErrorKind>(c));
        assert(chunk_view(c) == chunks_view(cs)[k - 1]);
        let m = spec_material2matl(k as u8, p[k - 1].mat_type);
        assert(chunk_view(c) == ChunkView::MATL(m));
        lemma_material_round_trip(k as u8, p[k - 1].mat_type);
        let prev = materials_set(s.palette, p, k - 1);
        match c {
            Chunk::MATL(mm) => {
                assert(mm == m);
                assert(with_material(prev, m.id, spec_matl2material(m)) =~= materials_set(s.palette, p, k));
            },
            _ => {},
        }
    }
}

/// Assembling two sequences one after the other is assembling the first,
/// then the second from where the first left off.
pub proof fn lemma_fold_split(s: BuilderView, a: Seq<Result<Chunk, VoxErrorKind>>, b: Seq<Result<Chunk, VoxErrorKind>>)
    ensures
        spec_fold_from(s, a + b) == (match spec_fold_from(s, a) {
            Ok(t) => spec_fold_from(t, b),
            Err(e) => Err(e),
        }),
    decreases b.len(),
{
    if b.len() == 0 {
        assert(a + b =~= a);
    } else {
        lemma_fold_split(s, a, b.drop_last());
        assert((a + b).drop_last() =~= a + b.drop_last());
        assert((a + b).last() == b.last());
    }
}

/// Assembly from the start is assembly from the initial state.
pub proof fn lemma_fold_is_from(items: Seq<Result<Chunk, VoxErrorKind>>)
    ensures
        spec_fold(items) == spec_fold_from(initial_state(), items),
    decreases items.len(),
{
    if items.len() > 0 {
        lemma_fold_is_from(items.drop_last());
    }
}

/// The `ok` chunks of a part are that part of the `ok` chunks.
proof fn lemma_all_ok_subrange(cs: Seq<Chunk>, i: int, j: int)
    requires
        0 <= i <= j <= cs.len(),
    ensures
        all_ok(cs.subrange(i, j)) == all_ok(cs).subrange(i, j),
{
    assert(all_ok(cs.subrange(i, j)) =~= all_ok(cs).subrange(i, j));
}

/// The views of a part are that part of the views.
proof fn lemma_chunks_view_subrange(cs: Seq<Chunk>, i: int, j: int)
    requires
        0 <= i <= j <= cs.len(),
    ensures
        chunks_view(cs.subrange(i, j)) == chunks_view(cs).subrange(i, j),
{
    assert(chunks_view(cs.subrange(i, j)) =~= chunks_view(cs).subrange(i, j));
}

/// Assembling the `SIZE`/`XYZI` pairs that the flattener writes for models
/// `ms` appends `ms` to the models.
pub proof fn lemma_models_restored(s: BuilderView, cs: Seq<Chunk>, ms: Seq<((u32, u32, u32), Seq<(u8, u8, u8, u8)>)>, k: int)
    requires
        s.pending_size is None,
        chunks_view(cs) == models_chunks(ms),
        0 <= k <= ms.len(),
    ensures
        spec_fold_from(s, all_ok(cs.subrange(0, 2 * k)))
            == Ok::<BuilderView, VoxErrorKind>(BuilderView { models: s.models + ms.subrange(0, k), ..s }),
    decreases k,
{
    assert(cs.len() == 2 * ms.len()) by {
        assert(chunks_view(cs).len() == cs.len());
    }
    if k == 0 {
        assert(all_ok(cs.subrange(0, 0)) =~= Seq::<Result<Chunk, VoxErrorKind>>::empty());
        assert(s.models + ms.subrange(0, 0) =~= s.models);
    } else {
        lemma_models_restored(s, cs, ms, k - 1);
        let items = all_ok(cs.subrange(0, 2 * k));
        let mid = all_ok(cs.subrange(0, 2 * k - 1));
        assert(items.drop_last() =~= mid);
        assert(mid.drop_last() =~= all_ok(cs.subrange(0, 2 * k - 2)));
        let c1 = cs[2 * k - 2];
        let c2 = cs[2 * k - 1];
        assert(mid.last() == Ok::<Chunk, VoxErrorKind>(c1));
        assert(items.last() == Ok::<Chunk, VoxErrorKind>(c2));
        assert(chunk_view(c1) == chunks_view(cs)[2 * k - 2]);
        assert(chunk_view(c2) == chunks_view(cs)[2 * k - 1]);
        assert((2 * k - 2) / 2 == k - 1 && (2 * k - 2) % 2 == 0);
        assert((2 * k - 1) / 2 == k - 1 && (2 * k - 1) % 2 == 1);
        assert(chunk_view(c1) == ChunkView::SIZE(ms[k - 1].0));
        assert(chunk_view(c2) == ChunkView::XYZI(ms[k - 1].1));
        assert(s.models + ms.subrange(0, k) =~= (s.models + ms.subrange(0, k - 1)).push(ms[k - 1]));
        let t0 = BuilderView { models: s.models + ms.subrange(0, k - 1), ..s };
        assert(spec_fold_from(s, all_ok(cs.subrange(0, 2 * k - 2))) == Ok::<BuilderView, VoxErrorKind>(t0));
        match c1 {
            Chunk::SIZE(sz) => {
                let t1 = BuilderView { pending_size: Some(sz), ..t0 };
                assert(spec_step(t0, Ok(c1)) == Ok::<BuilderView, VoxErrorKind>(t1));
                assert(spec_fold_from(s, mid) == Ok::<BuilderView, VoxErrorKind>(t1));
                match c2 {
                    Chunk::XYZI(v) => {
                        assert(v@ == ms[k - 1].1);
                        assert(sz == ms[k - 1].0);
                        let t2 = BuilderView { models: t1.models.push((sz, v@)), pending_size: None, ..t1 };
                        assert(spec_step(t1, Ok(c2)) == Ok::<BuilderView, VoxErrorKind>(t2));
                        assert(t2 == BuilderView { models: s.models + ms.subrange(0, k), ..s });
                    },
                    _ => {},
                }
            },
            _ => {},
        }
    }
}

/// Every chunk that exporting a tree writes is a scene-graph chunk.
pub proof fn lemma_export_node_chunks(n: SceneNodeView, id: nat)
    ensures
        forall|i: int| 0 <= i < spec_export(n, id).0.len() ==> {
            let c = #[trigger] spec_export(n, id).0[i];
            c is NTRN || c is NGRP || c is NSHP
        },
    decreases n,
{
    match n.node_type {
        NodeTypeView::Shape(_) => {},
        NodeTypeView::Group(cs) => {
            lemma_export_list_node_chunks(cs, id + 2);
        },
    }
}

/// Every chunk that exporting a sequence of trees writes is a scene-graph
/// chunk.
pub proof fn lemma_export_list_node_chunks(cs: Seq<SceneNodeView>, id: nat)
    ensures
        forall|i: int| 0 <= i < spec_export_list(cs, id).0.len() ==> {
            let c = #[trigger] spec_export_list(cs, id).0[i];
            c is NTRN || c is NGRP || c is NSHP
        },
    decreases cs,
{
    if cs.len() > 0 {
        lemma_export_list_node_chunks(cs.drop_last(), id);
        let next = spec_export_list(cs.drop_last(), id).2;
        lemma_export_node_chunks(cs.last(), next);
        let a = spec_export_list(cs.drop_last(), id).0;
        let b = spec_export(cs.last(), next).0;
        assert forall|i: int| 0 <= i < (a + b).len() implies {
            let c = #[trigger] (a + b)[i];
            c is NTRN || c is NGRP || c is NSHP
        } by {
            if i < a.len() {
                assert((a + b)[i] == a[i]);
            } else {
                assert((a + b)[i] == b[i - a.len()]);
            }
        }
    }
}

/// Assembling scene-graph chunks leaves the palette, models, pending size and
/// layers as they were.
pub proof fn lemma_nodes_keep_rest(s: BuilderView, cs: Seq<Chunk>, k: int)
    requires
        forall|i: int| 0 <= i < cs.len() ==> {
            let c = #[trigger] chunk_view(cs[i]);
            c is NTRN || c is NGRP || c is NSHP
        },
        0 <= k <= cs.len(),
    ensures
        spec_fold_from(s, all_ok(cs.subrange(0, k))) is Ok,
        ({
            let t = spec_fold_from(s, all_ok(cs.subrange(0, k))).unwrap();
            t.palette == s.palette && t.models == s.models && t.pending_size == s.pending_size && t.layers == s.layers
        }),
    decreases k,
{
    if k == 0 {
        assert(all_ok(cs.subrange(0, 0)) =~= Seq::<Result<Chunk, VoxErrorKind>>::empty());
    } else {
        lemma_nodes_keep_rest(s, cs, k - 1);
        let items = all_ok(cs.subrange(0, k));
        assert(items.drop_last() =~= all_ok(cs.subrange(0, k - 1)));
        assert(items.last() == Ok::<Chunk, VoxErrorKind>(cs[k - 1]));
        let c = chunk_view(cs[k - 1]);
        assert(c is NTRN || c is NGRP || c is NSHP);
    }
}

/// Assembling the `LAYR` chunks that the flattener writes for layers `ls`,
/// from a state without layers, gives those layers.
pub proof fn lemma_layers_restored(s: BuilderView, cs: Seq<Chunk>, ls: Seq<(Seq<char>, bool)>, k: int)
    requires
        s.layers.len() == 0,
        ls.len() <= u32::MAX,
        chunks_view(cs) == layers_chunks(ls),
        0 <= k <= ls.len(),
    ensures
        spec_fold_from(s, all_ok(cs.subrange(0, k)))
            == Ok::<BuilderView, VoxErrorKind>(BuilderView { layers: ls.subrange(0, k), ..s }),
    decreases k,
{
    assert(cs.len() == ls.len()) by {
        assert(chunks_view(cs).len() == cs.len());
    }
    if k == 0 {
        assert(all_ok(cs.subrange(0, 0)) =~= Seq::<Result<Chunk, VoxErrorKind>>::empty());
        assert(ls.subrange(0, 0) =~= s.layers);
    } else {
        lemma_layers_restored(s, cs, ls, k - 1);
        let items = all_ok(cs.subrange(0, k));
        assert(items.drop_last() =~= all_ok(cs.subrange(0, k - 1)));
        let c = cs[k - 1];
        assert(items.last() == Ok::<Chunk, VoxErrorKind>(c));
        assert(chunk_view(c) == chunks_view(cs)[k - 1]);
        assert(chunk_view(c) == ChunkView::LAYR(LayrView { id: (k - 1) as u32, name: Some(ls[k - 1].0), is_hidden: ls[k - 1].1 }));
        let prev = ls.subrange(0, k - 1);
        assert(((k - 1) as u32) as int == k - 1);
        match c {
            Chunk::LAYR(l) => {
                assert(l.id as int == k - 1);
                assert(opt_text(l.name) == Some(ls[k - 1].0));
                let grown = prev + Seq::new((l.id + 1 - prev.len()) as nat, |i: int| (Seq::<char>::empty(), false));
                assert(grown.update(l.id as int, (ls[k - 1].0, l.is_hidden)) =~= ls.subrange(0, k));
            },
            _ => {},
        }
    }
}

/// Flattening a scene and assembling its chunks again gives back the
/// scene's palette, models and layers, with no `SIZE` left pending, and a
/// node map that holds each exported scene-graph chunk under its id.
#[verifier::spinoff_prover]
#[verifier::rlimit(100)]
pub proof fn lemma_flatten_restores_content(s: VoxScene, cs: Seq<Chunk>)
    requires
        scene_fits(s),
        chunks_view(cs) == spec_flatten(scene_view(s)),
    ensures
        spec_fold(all_ok(cs)) is Ok,
        spec_fold(all_ok(cs)).unwrap().palette == scene_view(s).palette,
        spec_fold(all_ok(cs)).unwrap().models == scene_view(s).models,
        spec_fold(all_ok(cs)).unwrap().layers == scene_view(s).layers,
        spec_fold(all_ok(cs)).unwrap().pending_size is None,
        agrees(spec_fold(all_ok(cs)).unwrap().nodes, spec_export(scene_view(s).graph, 0).0),
        spec_fold(all_ok(cs)).unwrap().node_chunks == spec_export(scene_view(s).graph, 0).0.len(),
{
    let sv = scene_view(s);
    let p1 = models_chunks(sv.models);
    let p3 = spec_export(sv.graph, 0).0;
    let p4 = layers_chunks(sv.layers);
    let p5 = materials_chunks(sv.palette);
    let f = spec_flatten(sv);
    let a = p1.len() as int;
    let b = a + 1;
    let c = b + p3.len() as int;
    let d = c + p4.len() as int;
    let e = d + p5.len() as int;
    assert(f == p1 + seq![ChunkView::RGBA(palette_colors(sv.palette))] + p3 + p4 + p5);
    assert(cs.len() == e) by {
        assert(chunks_view(cs).len() == cs.len());
    }
    let cs1 = cs.subrange(0, a);
    let cs3 = cs.subrange(b, c);
    let cs4 = cs.subrange(c, d);
    let cs5 = cs.subrange(d, e);
    lemma_chunks_view_subrange(cs, 0, a);
    lemma_chunks_view_subrange(cs, b, c);
    lemma_chunks_view_subrange(cs, c, d);
    lemma_chunks_view_subrange(cs, d, e);
    assert(f.subrange(0, a) =~= p1);
    assert(f.subrange(b, c) =~= p3);
    assert(f.subrange(c, d) =~= p4);
    assert(f.subrange(d, e) =~= p5);
    assert(f[a] == ChunkView::RGBA(palette_colors(sv.palette)));
    let rgba = cs[a];
    assert(chunk_view(rgba) == f[a]);
    let items = all_ok(cs);
    assert(items =~= all_ok(cs1) + seq![Ok::<Chunk, VoxErrorKind>(rgba)] + all_ok(cs3) + all_ok(cs4) + all_ok(cs5));
    lemma_fold_is_from(items);
    let s0 = initial_state();
    let i1 = all_ok(cs1);
    let i2 = i1 + seq![Ok::<Chunk, VoxErrorKind>(rgba)];
    let i3 = i2 + all_ok(cs3);
    let i4 = i3 + all_ok(cs4);
    // models
    lemma_models_restored(s0, cs1, sv.models, sv.models.len() as int);
    assert(cs1.subrange(0, 2 * sv.models.len() as int) =~= cs1);
    let s1 = BuilderView { models: s0.models + sv.models.subrange(0, sv.models.len() as int), ..s0 };
    assert(spec_fold_from(s0, i1) == Ok::<BuilderView, VoxErrorKind>(s1));
    assert(s0.models + sv.models.subrange(0, sv.models.len() as int) =~= sv.models);
    // palette colors
    lemma_fold_split(s0, i1, seq![Ok::<Chunk, VoxErrorKind>(rgba)]);
    let one = seq![Ok::<Chunk, VoxErrorKind>(rgba)];
    assert(one.drop_last() =~= Seq::<Result<Chunk, VoxErrorKind>>::empty());
    assert(one.last() == Ok::<Chunk, VoxErrorKind>(rgba));
    let colors = palette_colors(sv.palette);
    let s2 = BuilderView { palette: with_colors(s1.palette, colors), ..s1 };
    match rgba {
        Chunk::RGBA(v) => {
            assert(v@ == colors);
            assert(spec_fold_from(s1, one.drop_last()) == Ok::<BuilderView, VoxErrorKind>(s1));
            assert(spec_step(s1, Ok(rgba)) == Ok::<BuilderView, VoxErrorKind>(s2));
            assert(spec_fold_from(s1, one) == Ok::<BuilderView, VoxErrorKind>(s2));
        },
        _ => {},
    }
    assert(spec_fold_from(s0, i2) == Ok::<BuilderView, VoxErrorKind>(s2));
    // scene graph chunks
    lemma_export_node_chunks(sv.graph, 0);
    assert forall|i: int| 0 <= i < cs3.len() implies {
        let cv = #[trigger] chunk_view(cs3[i]);
        cv is NTRN || cv is NGRP || cv is NSHP
    } by {
        assert(chunk_view(cs3[i]) == chunks_view(cs3)[i]);
        assert(p3[i] == spec_export(sv.graph, 0).0[i]);
    }
    lemma_nodes_keep_rest(s2, cs3, cs3.len() as int);
    assert(cs3.subrange(0, cs3.len() as int) =~= cs3);
    lemma_export_positions(sv.graph, 0);
    assert forall|i: int| 0 <= i < p3.len() implies {
        let cv = #[trigger] p3[i];
        (cv is NTRN || cv is NGRP || cv is NSHP) && view_node_id(cv) == i as u32
    } by {
        assert(view_node_id(spec_export(sv.graph, 0).0[i]) == (0 + i) as u32);
    }
    lemma_nodes_agree(s2, cs3, p3, cs3.len() as int);
    assert(p3.subrange(0, cs3.len() as int) =~= p3);
    lemma_fold_split(s0, i2, all_ok(cs3));
    let s3 = spec_fold_from(s2, all_ok(cs3)).unwrap();
    assert(spec_fold_from(s0, i3) == Ok::<BuilderView, VoxErrorKind>(s3));
    // layers
    lemma_layers_restored(s3, cs4, sv.layers, sv.layers.len() as int);
    assert(cs4.subrange(0, sv.layers.len() as int) =~= cs4);
    assert(sv.layers.subrange(0, sv.layers.len() as int) =~= sv.layers);
    let s4 = BuilderView { layers: sv.layers, ..s3 };
    lemma_fold_split(s0, i3, all_ok(cs4));
    assert(spec_fold_from(s0, i4) == Ok::<BuilderView, VoxErrorKind>(s4));
    // materials
    lemma_materials_restored(s4, cs5, sv.palette);
    lemma_fold_split(s0, i4, all_ok(cs5));
    let s5 = BuilderView { palette: materials_set(s4.palette, sv.palette, 255), ..s4 };
    assert(spec_fold_from(s0, items) == Ok::<BuilderView, VoxErrorKind>(s5));
    assert(materials_set(s4.palette, sv.palette, 255) =~= sv.palette);
}

/// The node id of a scene-graph chunk.
pub open spec fn view_node_id(c: ChunkView) -> u32 {
    match c {
        ChunkView::NTRN(t) => t.node_id,
        ChunkView::NGRP(g) => g.node_id,
        ChunkView::NSHP(s) => s.node_id,
        _ => 0,
    }
}

/// The chunk that a scene-graph node came from, as plain values.
pub open spec fn parsed_view(p: ParsedNode) -> ChunkView {
    match p {
        ParsedNode::Transform(t) => ChunkView::NTRN(transform_view(t)),
        ParsedNode::Group(g) => ChunkView::NGRP(group_view(g)),
        ParsedNode::Shape(s) => ChunkView::NSHP(shape_view(s)),
    }
}

/// Every shape of the tree references one of `m` models.
pub open spec fn shapes_in(n: SceneNodeView, m: nat) -> bool
    decreases n,
{
    match n.node_type {
        NodeTypeView::Shape(i) => i < m,
        NodeTypeView::Group(cs) => shapes_in_list(cs, m),
    }
}

/// Every shape of the trees references one of `m` models.
pub open spec fn shapes_in_list(cs: Seq<SceneNodeView>, m: nat) -> bool
    decreases cs,
{
    cs.len() == 0 || (shapes_in_list(cs.drop_last(), m) && shapes_in(cs.last(), m))
}

/// Exporting numbers the chunks in order: the chunk at position `j` has node
/// id `id + j`, and a tree takes two chunks per node.
pub proof fn lemma_export_positions(n: SceneNodeView, id: nat)
    requires
        id + 2 * node_count(n) <= u32::MAX,
    ensures
        spec_export(n, id).0.len() == 2 * node_count(n),
        forall|j: int| 0 <= j < spec_export(n, id).0.len() ==> view_node_id(#[trigger] spec_export(n, id).0[j]) == (id + j) as u32,
    decreases n,
{
    match n.node_type {
        NodeTypeView::Shape(_) => {},
        NodeTypeView::Group(cs) => {
            lemma_export_list_positions(cs, id + 2);
            let body = spec_export_list(cs, id + 2).0;
            let e = spec_export(n, id).0;
            assert forall|j: int| 0 <= j < e.len() implies view_node_id(#[trigger] e[j]) == (id + j) as u32 by {
                if j >= 2 {
                    assert(e[j] == body[j - 2]);
                }
            }
        },
    }
}

/// Exporting a sequence numbers its chunks in order from `id`.
pub proof fn lemma_export_list_positions(cs: Seq<SceneNodeView>, id: nat)
    requires
        id + 2 * nodes_count(cs) <= u32::MAX,
    ensures
        spec_export_list(cs, id).0.len() == 2 * nodes_count(cs),
        spec_export_list(cs, id).2 == id + 2 * nodes_count(cs),
        forall|j: int| 0 <= j < spec_export_list(cs, id).0.len() ==> view_node_id(#[trigger] spec_export_list(cs, id).0[j]) == (id + j) as u32,
    decreases cs,
{
    lemma_export_list_ids(cs, id);
    if cs.len() > 0 {
        lemma_export_list_positions(cs.drop_last(), id);
        let next = spec_export_list(cs.drop_last(), id).2;
        lemma_export_positions(cs.last(), next);
        let a = spec_export_list(cs.drop_last(), id).0;
        let b = spec_export(cs.last(), next).0;
        assert forall|j: int| 0 <= j < (a + b).len() implies view_node_id(#[trigger] (a + b)[j]) == (id + j) as u32 by {
            if j < a.len() {
                assert((a + b)[j] == a[j]);
            } else {
                assert((a + b)[j] == b[j - a.len()]);
            }
        }
    }
}

/// The node map holds, at each id below `g.len()`, the node of chunk `g[id]`.
pub open spec fn agrees(nodes: Map<u32, ParsedNode>, g: Seq<ChunkView>) -> bool {
    forall|k: int| 0 <= k < g.len() ==> nodes.contains_key(k as u32) && #[trigger] parsed_view(nodes[k as u32]) == g[k]
}

/// Assembling scene-graph chunks whose node ids are their positions fills
/// the node map with them.
pub proof fn lemma_nodes_agree(s: BuilderView, cs: Seq<Chunk>, g: Seq<ChunkView>, k: int)
    requires
        chunks_view(cs) == g,
        g.len() <= u32::MAX,
        forall|i: int| 0 <= i < g.len() ==> {
            let c = #[trigger] g[i];
            (c is NTRN || c is NGRP || c is NSHP) && view_node_id(c) == i as u32
        },
        0 <= k <= cs.len(),
    ensures
        spec_fold_from(s, all_ok(cs.subrange(0, k))) is Ok,
        agrees(spec_fold_from(s, all_ok(cs.subrange(0, k))).unwrap().nodes, g.subrange(0, k)),
        spec_fold_from(s, all_ok(cs.subrange(0, k))).unwrap().node_chunks == s.node_chunks + k,
    decreases k,
{
    assert(cs.len() == g.len()) by {
        assert(chunks_view(cs).len() == cs.len());
    }
    if k == 0 {
        assert(all_ok(cs.subrange(0, 0)) =~= Seq::<Result<Chunk, VoxErrorKind>>::empty());
    } else {
        lemma_nodes_agree(s, cs, g, k - 1);
        let items = all_ok(cs.subrange(0, k));
        assert(items.drop_last() =~= all_ok(cs.subrange(0, k - 1)));
        let c = cs[k - 1];
        assert(items.last() == Ok::<Chunk, VoxErrorKind>(c));
        assert(chunk_view(c) == g[k - 1]);
        let t = spec_fold_from(s, all_ok(cs.subrange(0, k - 1))).unwrap();
        let key = (k - 1) as u32;
        let node = match c {
            Chunk::NTRN(x) => ParsedNode::Transform(x),
            Chunk::NGRP(x) => ParsedNode::Group(x),
            _ => match c {
                Chunk::NSHP(x) => ParsedNode::Shape(x),
                _ => ParsedNode::Transform(TransformNode {
                    node_id: 0, name: None, is_hidden: false, child_node_id: 0, layer_id: None,
                    rotation: MatRowCols::OneTwoThree(false, false, false), translation: (0, 0, 0),
                }),
            },
        };
        assert(g[k - 1] is NTRN || g[k - 1] is NGRP || g[k - 1] is NSHP);
        assert(view_node_id(g[k - 1]) == key);
        let nodes2 = t.nodes.insert(key, node);
        assert(spec_fold_from(s, items) == Ok::<BuilderView, VoxErrorKind>(BuilderView { nodes: nodes2, node_chunks: t.node_chunks + 1, ..t }));
        assert(parsed_view(node) == g[k - 1]);
        assert forall|i: int| 0 <= i < k implies nodes2.contains_key(i as u32) && #[trigger] parsed_view(nodes2[i as u32]) == g.subrange(0, k)[i] by {
            if i < k - 1 {
                assert(g.subrange(0, k - 1)[i] == g[i]);
                assert((i as u32) != key);
            }
        }
    }
}

/// Building from a node map that holds a tree's exported chunks gives the
/// tree back, when the depth bound is at least its node count and its
/// shapes reference existing models.
pub proof fn lemma_build_exported(nodes: Map<u32, ParsedNode>, g: Seq<ChunkView>, n: SceneNodeView, id: nat, m: nat, depth: nat)
    requires
        agrees(nodes, g),
        id + 2 * node_count(n) <= g.len(),
        g.len() <= u32::MAX,
        g.subrange(id as int, (id + 2 * node_count(n)) as int) == spec_export(n, id).0,
        depth >= node_count(n),
        shapes_in(n, m),
    ensures
        spec_build(nodes, id as u32, m, depth) == Some(n),
    decreases n,
{
    lemma_export_positions(n, id);
    let e = spec_export(n, id).0;
    assert(g[id as int] == e[0]);
    assert(g[id + 1int] == e[1]);
    assert(nodes.contains_key(id as u32) && parsed_view(nodes[id as u32]) == g[id as int]);
    assert(((id + 1) as int) as u32 == (id + 1) as u32);
    assert(nodes.contains_key((id + 1) as u32) && parsed_view(nodes[(id + 1) as u32]) == g[id + 1int]);
    match n.node_type {
        NodeTypeView::Shape(mi) => {},
        NodeTypeView::Group(cs) => {
            let body = spec_export_list(cs, id + 2).0;
            lemma_export_list_positions(cs, id + 2);
            assert(g.subrange(id + 2int, id + 2 + body.len() as int) =~= body) by {
                assert forall|j: int| 0 <= j < body.len() implies g.subrange(id + 2int, id + 2 + body.len() as int)[j] == body[j] by {
                    assert(g[id + 2int + j] == g.subrange(id as int, (id + 2 * node_count(n)) as int)[2 + j]);
                    assert(e[2 + j] == body[j]);
                }
            }
            lemma_build_list_exported(nodes, g, cs, id + 2, m, (depth - 1) as nat);
        },
    }
}

/// Building the roots of a sequence of exported trees gives the trees back.
pub proof fn lemma_build_list_exported(nodes: Map<u32, ParsedNode>, g: Seq<ChunkView>, cs: Seq<SceneNodeView>, id: nat, m: nat, depth: nat)
    requires
        agrees(nodes, g),
        id + 2 * nodes_count(cs) <= g.len(),
        g.len() <= u32::MAX,
        g.subrange(id as int, (id + 2 * nodes_count(cs)) as int) == spec_export_list(cs, id).0,
        depth >= nodes_count(cs),
        shapes_in_list(cs, m),
    ensures
        spec_build_list(nodes, spec_export_list(cs, id).1, m, depth) == Some(cs),
    decreases cs,
{
    if cs.len() == 0 {
        assert(spec_export_list(cs, id).1 =~= Seq::<u32>::empty());
        assert(cs =~= Seq::<SceneNodeView>::empty());
    } else {
        let init = cs.drop_last();
        lemma_export_list_positions(init, id);
        lemma_export_list_positions(cs, id);
        let a = spec_export_list(init, id).0;
        let next = spec_export_list(init, id).2;
        lemma_export_positions(cs.last(), next);
        let b = spec_export(cs.last(), next).0;
        let whole = spec_export_list(cs, id).0;
        assert(whole == a + b);
        assert(g.subrange(id as int, id + a.len() as int) =~= a) by {
            assert forall|j: int| 0 <= j < a.len() implies g.subrange(id as int, id + a.len() as int)[j] == a[j] by {
                assert(g[id as int + j] == g.subrange(id as int, (id + 2 * nodes_count(cs)) as int)[j]);
                assert(whole[j] == a[j]);
            }
        }
        assert(g.subrange(next as int, next + b.len() as int) =~= b) by {
            assert forall|j: int| 0 <= j < b.len() implies g.subrange(next as int, next + b.len() as int)[j] == b[j] by {
                assert(g[next as int + j] == g.subrange(id as int, (id + 2 * nodes_count(cs)) as int)[a.len() as int + j]);
                assert(whole[a.len() as int + j] == b[j]);
            }
        }
        lemma_build_list_exported(nodes, g, init, id, m, depth);
        lemma_build_exported(nodes, g, cs.last(), next, m, depth);
        let roots = spec_export_list(cs, id).1;
        assert(roots.drop_last() == spec_export_list(init, id).1);
        assert(roots.last() == next as u32);
        assert(init.push(cs.last()) =~= cs);
    }
}

/// Flattening a scene and assembling its chunks again gives back the scene,
/// when it has 255 palette entries, its layers and nodes can be numbered by
/// `u32`, and each of its shapes references one of its models.
pub proof fn lemma_flatten_then_assemble(s: VoxScene, cs: Seq<Chunk>)
    requires
        scene_fits(s),
        chunks_view(cs) == spec_flatten(scene_view(s)),
        shapes_in(scene_view(s).graph, scene_view(s).models.len()),
    ensures
        spec_assemble(all_ok(cs)) == Ok::<SceneView, VoxErrorKind>(scene_view(s)),
{
    let sv = scene_view(s);
    lemma_flatten_restores_content(s, cs);
    let t = spec_fold(all_ok(cs)).unwrap();
    let g = spec_export(sv.graph, 0).0;
    lemma_export_positions(sv.graph, 0);
    assert(g.subrange(0, g.len() as int) =~= g);
    lemma_build_exported(t.nodes, g, sv.graph, 0, sv.models.len(), t.node_chunks);
    assert(t.nodes.contains_key(0)) by {
        assert(g.len() > 0) by {
            assert(node_count(sv.graph) >= 1);
        }
        assert(((0int) as u32) == 0u32);
    }
    assert(!t.nodes.is_empty()) by {
        assert(t.nodes.dom().contains(0));
    }
}

/// A tree that building gives only shows existing models.
pub proof fn lemma_build_shapes_in(nodes: Map<u32, ParsedNode>, id: u32, m: nat, depth: nat)
    ensures
        spec_build(nodes, id, m, depth) is Some ==> shapes_in(spec_build(nodes, id, m, depth).unwrap(), m),
    decreases depth, 0nat,
{
    if depth > 0 {
        match nodes.get(id) {
            Some(ParsedNode::Transform(t)) => {
                match nodes.get(t.child_node_id) {
                    Some(ParsedNode::Group(g)) => {
                        lemma_build_list_shapes_in(nodes, g.child_nodes@, m, (depth - 1) as nat);
                    },
                    _ => {},
                }
            },
            _ => {},
        }
    }
}

/// Trees that building gives only show existing models.
pub proof fn lemma_build_list_shapes_in(nodes: Map<u32, ParsedNode>, ids: Seq<u32>, m: nat, depth: nat)
    ensures
        spec_build_list(nodes, ids, m, depth) is Some ==> shapes_in_list(spec_build_list(nodes, ids, m, depth).unwrap(), m),
    decreases depth, ids.len(),
{
    if ids.len() > 0 {
        lemma_build_list_shapes_in(nodes, ids.drop_last(), m, depth);
        lemma_build_shapes_in(nodes, ids.last(), m, depth);
        match spec_build_list(nodes, ids, m, depth) {
            Some(cs) => {
                let init = spec_build_list(nodes, ids.drop_last(), m, depth).unwrap();
                assert(cs.drop_last() =~= init);
            },
            None => {},
        }
    }
}

/// An assembled scene only shows existing models.
pub proof fn lemma_assembled_shapes_in(items: Seq<Result<Chunk, VoxErrorKind>>)
    requires
        spec_assemble(items) is Ok,
    ensures
        shapes_in(spec_assemble(items).unwrap().graph, spec_assemble(items).unwrap().models.len()),
{
    let st = spec_fold(items).unwrap();
    if !st.nodes.is_empty() {
        lemma_build_shapes_in(st.nodes, 0, st.models.len(), st.node_chunks);
    } else {
        if st.models.len() == 0 {
            assert(shapes_in_list(Seq::<SceneNodeView>::empty(), 0));
        }
    }
}

/// Assembling again the chunks of an assembled scene gives the same scene:
/// for a scene `s` that assembly of `items` gave, flattening it ([`from_custom`]
/// gives chunks with these views) and assembling those chunks gives the same
/// result, provided the scene's layers and nodes can be numbered by `u32`.
pub proof fn lemma_reassemble(items: Seq<Result<Chunk, VoxErrorKind>>, s: VoxScene, cs: Seq<Chunk>)
    requires
        spec_assemble(items) == Ok::<SceneView, VoxErrorKind>(scene_view(s)),
        scene_fits(s),
        chunks_view(cs) == spec_flatten(scene_view(s)),
    ensures
        spec_assemble(all_ok(cs)) == spec_assemble(items),
{
    lemma_assembled_shapes_in(items);
    lemma_flatten_then_assemble(s, cs);
}

} // verus!
