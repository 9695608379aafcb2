//! The assembled scene of a `.vox` file: palette, models, scene tree and
//! layers. Easier to work with than the chunks it is built from.
//!
//! The z dimension is the gravity direction. Floating-point material values
//! are IEEE-754 bit patterns; an index of refraction is stored as its offset
//! from 1.0 (0.14 stands for 1.14).

use vstd::prelude::*;
use crate::data::special::MatRowCols;

verus! {

/// A scene described by a `.vox` file.
#[derive(Debug, PartialEq, Eq)]
pub struct VoxScene {
    /// The material palette: 255 entries. Palette index 0 (the empty voxel)
    /// is not stored, so entry `i` is palette index `i + 1`.
    pub palette: Vec<Material>,
    /// The voxel models.
    pub models: Vec<Model>,
    /// The scene graph (a tree), which places models in the scene.
    pub graph: SceneNode,
    /// The editing layers, by layer id.
    pub layers: Vec<Layer>,
}

/// A voxel model.
#[derive(Debug, PartialEq, Eq)]
pub struct Model {
    /// Size `(x, y, z)`; z is the gravity direction.
    pub size: (u32, u32, u32),
    /// Voxels `(x, y, z, color index)`. A color index `i` is palette entry
    /// `i - 1`; index 0 is invalid.
    pub xyzi: Vec<(u8, u8, u8, u8)>,
}

/// A layer of the scene.
#[derive(Debug, PartialEq, Eq)]
pub struct Layer {
    pub name: String,
    pub is_hidden: bool,
}

/// A node of the scene graph: a transform with a group or a shape under it.
#[derive(Debug, PartialEq, Eq)]
pub struct SceneNode {
    pub rotation: MatRowCols,
    pub translation: (i32, i32, i32),
    pub layer_id: Option<u32>,
    pub node_type: NodeType,
}

/// What a scene node holds.
#[derive(Debug, PartialEq, Eq)]
pub enum NodeType {
    /// A group of nodes.
    Group(Vec<SceneNode>),
    /// A model, by its index in [`VoxScene::models`].
    Shape(u32),
}

/// A palette entry: a color and a material.
#[derive(Debug, Clone, Copy, PartialEq, Eq)]
pub struct Material {
    pub rgba: (u8, u8, u8, u8),
    pub mat_type: MaterialType,
}

/// The kinds of material.
#[derive(Debug, Clone, Copy, PartialEq, Eq, Structural)]
pub enum MaterialType {
    Diffuse,
    Metal(MetalMaterial),
    Glass(GlassMaterial),
    Emit(EmitMaterial),
    Blend(BlendMaterial),
    /// Participating media (clouds).
    Media,
}

/// A metallic material.
#[derive(Debug, Clone, Copy, PartialEq, Eq, Structural)]
pub struct MetalMaterial {
    pub prop_rough: u32,
    /// Index of refraction, as its offset from 1.0.
    pub prop_ior: u32,
    pub prop_metal: u32,
}

/// A semi-transparent material.
#[derive(Debug, Clone, Copy, PartialEq, Eq, Structural)]
pub struct GlassMaterial {
    pub prop_rough: u32,
    /// Index of refraction, as its offset from 1.0.
    pub prop_ior: u32,
    pub prop_weight: u32,
}

/// A light-emitting material.
#[derive(Debug, Clone, Copy, PartialEq, Eq, Structural)]
pub struct EmitMaterial {
    pub prop_emit: u32,
    /// The power slider.
    pub prop_flux: u32,
    pub prop_ldr: u32,
}

/// A material that blends between metallic and transparent.
#[derive(Debug, Clone, Copy, PartialEq, Eq, Structural)]
pub struct BlendMaterial {
    pub prop_rough: u32,
    pub prop_metal: u32,
    /// Index of refraction, as its offset from 1.0.
    pub prop_ior: u32,
    pub prop_alpha: u32,
}

/// What a scene node holds, as plain values.
pub struct SceneNodeView {
    pub rotation: MatRowCols,
    pub translation: (i32, i32, i32),
    pub layer_id: Option<u32>,
    pub node_type: NodeTypeView,
}

/// What a scene node's type holds, as plain values.
pub enum NodeTypeView {
    Group(Seq<SceneNodeView>),
    Shape(u32),
}

/// The view of a scene tree.
pub open spec fn node_view(n: SceneNode) -> SceneNodeView
    decreases n,
{
    SceneNodeView {
        rotation: n.rotation,
        translation: n.translation,
        layer_id: n.layer_id,
        node_type: match n.node_type {
            NodeType::Group(cs) => NodeTypeView::Group(node_views(cs@)),
            NodeType::Shape(m) => NodeTypeView::Shape(m),
        },
    }
}

/// The views of a sequence of scene trees.
pub open spec fn node_views(ns: Seq<SceneNode>) -> Seq<SceneNodeView>
    decreases ns,
{
    if ns.len() == 0 {
        Seq::empty()
    } else {
        node_views(ns.drop_last()).push(node_view(ns.last()))
    }
}

/// A model as plain values: its size and its voxels.
pub open spec fn model_view(m: Model) -> ((u32, u32, u32), Seq<(u8, u8, u8, u8)>) {
    (m.size, m.xyzi@)
}

/// A layer as plain values: its name and whether it is hidden.
pub open spec fn layer_view(l: Layer) -> (Seq<char>, bool) {
    (l.name@, l.is_hidden)
}

} // verus!
