use vox_parser::data::chunks::{Chunk, GroupNode, Layr, Matl, MatlType, ShapeNode, TransformNode};
use vox_parser::data::custom::{MaterialType, MetalMaterial, NodeType, VoxScene};
use vox_parser::data::special::MatRowCols;
use vox_parser::parse::VoxErrorKind;
use vox_parser::{parse, unparse};

fn read_f32(s: &str) -> Option<u32> {
    s.parse::<f32>().ok().map(f32::to_bits)
}

fn write_f32(b: u32) -> String {
    f32::from_bits(b).to_string()
}

fn file_of(chunks: &Vec<Chunk>) -> Vec<u8> {
    unparse::file_raw(chunks, &write_f32)
}

fn parse_chunks(chunks: &Vec<Chunk>) -> Result<VoxScene, VoxErrorKind> {
    parse::file_custom(&file_of(chunks), &read_f32)
}

fn trn(node_id: u32, child: u32) -> TransformNode {
    TransformNode {
        node_id,
        name: None,
        is_hidden: false,
        child_node_id: child,
        layer_id: None,
        rotation: MatRowCols::identity(),
        translation: (0, 0, 0),
    }
}

fn model_chunks(n: usize) -> Vec<Chunk> {
    let mut v = Vec::new();
    for i in 0..n {
        v.push(Chunk::SIZE((1, 2, 3)));
        v.push(Chunk::XYZI(vec![(0, 0, i as u8, 1)]));
    }
    v
}

#[test]
fn size_size_xyzi_is_non_alternating() {
    let chunks = vec![Chunk::SIZE((1, 1, 1)), Chunk::SIZE((1, 1, 1)), Chunk::XYZI(vec![])];
    assert_eq!(parse_chunks(&chunks), Err(VoxErrorKind::NonAlternatingModel));
}

#[test]
fn size_xyzi_xyzi_is_non_alternating() {
    let chunks = vec![Chunk::SIZE((1, 1, 1)), Chunk::XYZI(vec![]), Chunk::XYZI(vec![])];
    assert_eq!(parse_chunks(&chunks), Err(VoxErrorKind::NonAlternatingModel));
}

#[test]
fn models_without_scene_graph_get_default_root() {
    let scene = parse_chunks(&model_chunks(1)).unwrap();
    assert_eq!(scene.models.len(), 1);
    assert_eq!(scene.models[0].size, (1, 2, 3));
    assert_eq!(scene.models[0].xyzi, vec![(0, 0, 0, 1)]);
    assert_eq!(scene.graph.node_type, NodeType::Shape(0));
    assert_eq!(scene.graph.rotation, MatRowCols::identity());
    assert_eq!(scene.graph.translation, (0, 0, 0));
    assert_eq!(scene.palette.len(), 255);
}

#[test]
fn empty_file_gives_empty_group() {
    let scene = parse_chunks(&vec![]).unwrap();
    assert_eq!(scene.graph.node_type, NodeType::Group(vec![]));
    assert!(scene.models.is_empty());
    assert!(scene.layers.is_empty());
}

#[test]
fn shape_with_missing_model_is_invalid_scene() {
    let mut chunks = model_chunks(3);
    chunks.push(Chunk::NTRN(trn(0, 1)));
    chunks.push(Chunk::NSHP(ShapeNode { node_id: 1, attributes: vec![], model_id: 5, model_attributes: vec![] }));
    assert_eq!(parse_chunks(&chunks), Err(VoxErrorKind::InvalidScene));
}

#[test]
fn shape_with_existing_model_resolves() {
    let mut chunks = model_chunks(3);
    chunks.push(Chunk::NTRN(trn(0, 1)));
    chunks.push(Chunk::NSHP(ShapeNode { node_id: 1, attributes: vec![], model_id: 2, model_attributes: vec![] }));
    let scene = parse_chunks(&chunks).unwrap();
    assert_eq!(scene.graph.node_type, NodeType::Shape(2));
    assert_eq!(scene.graph.layer_id, None);
}

#[test]
fn missing_root_is_invalid_scene() {
    let mut chunks = model_chunks(1);
    chunks.push(Chunk::NTRN(trn(3, 4)));
    chunks.push(Chunk::NSHP(ShapeNode { node_id: 4, attributes: vec![], model_id: 0, model_attributes: vec![] }));
    assert_eq!(parse_chunks(&chunks), Err(VoxErrorKind::InvalidScene));
}

#[test]
fn self_referencing_group_is_invalid_scene() {
    let mut chunks = model_chunks(1);
    chunks.push(Chunk::NTRN(trn(0, 1)));
    chunks.push(Chunk::NGRP(GroupNode { node_id: 1, attributes: vec![], child_nodes: vec![0] }));
    assert_eq!(parse_chunks(&chunks), Err(VoxErrorKind::InvalidScene));
}

#[test]
fn group_tree_resolves_in_order() {
    let mut chunks = model_chunks(2);
    chunks.push(Chunk::NTRN(trn(0, 1)));
    chunks.push(Chunk::NGRP(GroupNode { node_id: 1, attributes: vec![], child_nodes: vec![2, 4] }));
    let mut t2 = trn(2, 3);
    t2.translation = (-5, 0, 7);
    chunks.push(Chunk::NTRN(t2));
    chunks.push(Chunk::NSHP(ShapeNode { node_id: 3, attributes: vec![], model_id: 1, model_attributes: vec![] }));
    chunks.push(Chunk::NTRN(trn(4, 5)));
    chunks.push(Chunk::NSHP(ShapeNode { node_id: 5, attributes: vec![], model_id: 0, model_attributes: vec![] }));
    let scene = parse_chunks(&chunks).unwrap();
    match &scene.graph.node_type {
        NodeType::Group(cs) => {
            assert_eq!(cs.len(), 2);
            assert_eq!(cs[0].node_type, NodeType::Shape(1));
            assert_eq!(cs[0].translation, (-5, 0, 7));
            assert_eq!(cs[1].node_type, NodeType::Shape(0));
        }
        _ => panic!("expected a group"),
    }
}

#[test]
fn later_node_with_same_id_replaces_earlier() {
    let mut chunks = model_chunks(2);
    chunks.push(Chunk::NTRN(trn(0, 1)));
    chunks.push(Chunk::NSHP(ShapeNode { node_id: 1, attributes: vec![], model_id: 0, model_attributes: vec![] }));
    chunks.push(Chunk::NSHP(ShapeNode { node_id: 1, attributes: vec![], model_id: 1, model_attributes: vec![] }));
    let scene = parse_chunks(&chunks).unwrap();
    assert_eq!(scene.graph.node_type, NodeType::Shape(1));
}

#[test]
fn layers_grow_to_their_id() {
    let chunks = vec![Chunk::LAYR(Layr { id: 2, name: Some("top".to_string()), is_hidden: true })];
    let scene = parse_chunks(&chunks).unwrap();
    assert_eq!(scene.layers.len(), 3);
    assert_eq!(scene.layers[0].name, "");
    assert!(!scene.layers[0].is_hidden);
    assert_eq!(scene.layers[2].name, "top");
    assert!(scene.layers[2].is_hidden);
}

#[test]
fn rgba_replaces_colors_only() {
    let mut colors = vec![(1, 2, 3, 4); 255];
    colors[254] = (9, 9, 9, 9);
    let mut m = Matl::new(7, MatlType::Metal);
    m.prop_metal = Some(0.5f32.to_bits());
    let chunks = vec![Chunk::MATL(m), Chunk::RGBA(colors)];
    let scene = parse_chunks(&chunks).unwrap();
    assert_eq!(scene.palette[0].rgba, (1, 2, 3, 4));
    assert_eq!(scene.palette[254].rgba, (9, 9, 9, 9));
    assert_eq!(
        scene.palette[6].mat_type,
        MaterialType::Metal(MetalMaterial { prop_rough: 0, prop_ior: 0, prop_metal: 0.5f32.to_bits() })
    );
}

#[test]
fn default_palette_entries() {
    let scene = parse_chunks(&vec![]).unwrap();
    assert_eq!(scene.palette[0].rgba, (0xff, 0xff, 0xff, 0xff));
    assert_eq!(scene.palette[1].rgba, (0xff, 0xff, 0xcc, 0xff));
    assert_eq!(scene.palette[214].rgba, (0x00, 0x00, 0x33, 0xff));
    assert_eq!(scene.palette[215].rgba, (0xee, 0x00, 0x00, 0xff));
    assert_eq!(scene.palette[244].rgba, (0x00, 0x00, 0x11, 0xff));
    assert_eq!(scene.palette[245].rgba, (0xee, 0xee, 0xee, 0xff));
    assert_eq!(scene.palette[254].rgba, (0x11, 0x11, 0x11, 0xff));
    assert_eq!(scene.palette[0].mat_type, MaterialType::Diffuse);
}
