use vox_parser::data::chunks::{Chunk, Layr, Matl, MatlType, Matt, MattType, TransformNode};
use vox_parser::data::custom::{EmitMaterial, GlassMaterial, MaterialType, MetalMaterial, NodeType};
use vox_parser::data::special::MatRowCols;
use vox_parser::parse::VoxErrorKind;
use vox_parser::{from_custom, parse, unparse};

fn read_f32(s: &str) -> Option<u32> {
    s.parse::<f32>().ok().map(f32::to_bits)
}

fn write_f32(b: u32) -> String {
    f32::from_bits(b).to_string()
}

fn container(tag: &[u8; 4], payload: &[u8]) -> Vec<u8> {
    let mut v = Vec::new();
    unparse::raw_chunk(&mut v, tag, payload, &[]);
    v
}

fn file_with(children: &[u8]) -> Vec<u8> {
    let mut v = b"VOX ".to_vec();
    unparse::le_u32(&mut v, 150);
    unparse::raw_chunk(&mut v, b"MAIN", &[], children);
    v
}

fn dict_bytes(pairs: &[(&str, &str)]) -> Vec<u8> {
    let mut v = Vec::new();
    unparse::dict_ref(&mut v, &pairs.to_vec());
    v
}

fn ntrn_payload(frame: &[(&str, &str)]) -> Vec<u8> {
    let mut p = Vec::new();
    unparse::le_u32(&mut p, 0);
    p.extend(dict_bytes(&[]));
    unparse::le_u32(&mut p, 1);
    unparse::le_u32(&mut p, 0xFFFF_FFFF);
    unparse::le_u32(&mut p, 0xFFFF_FFFF);
    unparse::le_u32(&mut p, 1);
    p.extend(dict_bytes(frame));
    p
}

#[test]
fn rotation_identity_byte() {
    // Row one's column in bits 0-1, row two's in bits 2-3: the identity has
    // columns 0 and 1.
    assert_eq!(parse::rotation_u8(0b0000_0100), Some(MatRowCols::OneTwoThree(false, false, false)));
    assert_eq!(unparse::rotation_u8(MatRowCols::identity()), 0b0000_0100);
    assert_eq!(parse::rotation_u8(0b0000_0001), Some(MatRowCols::TwoOneThree(false, false, false)));
    assert!(MatRowCols::identity().is_identity());
    assert_eq!(MatRowCols::identity().matrix(), [1, 0, 0, 0, 1, 0, 0, 0, 1]);
}

#[test]
fn rotation_equal_columns_is_no_matrix() {
    assert_eq!(parse::rotation_u8(0b0000_0000), None);
    assert_eq!(parse::rotation_u8(0b0000_0101), None);
    assert_eq!(parse::rotation_u8(0b0000_0011), None);
}

#[test]
fn rotation_signs_and_columns() {
    let m = parse::rotation_u8(0b0010_0110).unwrap();
    assert_eq!(m, MatRowCols::ThreeTwoOne(false, true, false));
}

#[test]
fn rotation_all_bytes_round_trip() {
    for b in 0..=255u8 {
        if let Some(m) = parse::rotation_u8(b) {
            assert_eq!(unparse::rotation_u8(m), b & 0x7F);
        }
    }
}

#[test]
fn rotation_applies_to_vector() {
    let m = MatRowCols::TwoThreeOne(false, true, false);
    assert_eq!(m.matrix(), [0, 1, 0, 0, 0, -1, 1, 0, 0]);
    assert_eq!(m.apply_to((1, 2, 3)), (2, -3, 1));
}

#[test]
fn invalid_rotation_attribute_fails_ntrn() {
    let payload = ntrn_payload(&[("_r", "0")]);
    assert_eq!(parse::chunk_scene::chunk_ntrn_all(&payload).err(), Some(VoxErrorKind::InvalidTRNProperty));
    let file = file_with(&container(b"nTRN", &payload));
    assert_eq!(parse::file_custom(&file, &read_f32).err(), Some(VoxErrorKind::InvalidTRNProperty));
}

#[test]
fn ntrn_frame_attributes_decode() {
    let payload = ntrn_payload(&[("_r", "+20"), ("_t", "-1 0 25")]);
    let t = parse::chunk_scene::chunk_ntrn_all(&payload).unwrap();
    assert_eq!(t.rotation, MatRowCols::OneTwoThree(true, false, false));
    assert_eq!(t.translation, (-1, 0, 25));
    assert_eq!(t.layer_id, None);
    assert_eq!(t.child_node_id, 1);
}

#[test]
fn ntrn_bad_translation_fails() {
    for text in ["1 2", "1  2 3", "1 2 3 ", "a 2 3", "2147483648 0 0", "- 1 2"] {
        let payload = ntrn_payload(&[("_t", text)]);
        assert_eq!(parse::chunk_scene::chunk_ntrn_all(&payload).err(), Some(VoxErrorKind::InvalidTRNProperty));
    }
}

#[test]
fn ntrn_reserved_and_frames_checked() {
    let mut p = Vec::new();
    unparse::le_u32(&mut p, 0);
    p.extend(dict_bytes(&[]));
    unparse::le_u32(&mut p, 1);
    unparse::le_u32(&mut p, 5);
    assert_eq!(parse::chunk_scene::chunk_ntrn(&p, 0).err(), Some(VoxErrorKind::InvalidTRNReserved(5)));
    let mut q = Vec::new();
    unparse::le_u32(&mut q, 0);
    q.extend(dict_bytes(&[("_hidden", "2")]));
    assert_eq!(parse::chunk_scene::chunk_ntrn(&q, 0).err(), Some(VoxErrorKind::InvalidTRNHidden));
    let mut r = Vec::new();
    unparse::le_u32(&mut r, 0);
    r.extend(dict_bytes(&[]));
    unparse::le_u32(&mut r, 1);
    unparse::le_u32(&mut r, 0xFFFF_FFFF);
    unparse::le_u32(&mut r, 0xFFFF_FFFF);
    unparse::le_u32(&mut r, 2);
    assert_eq!(parse::chunk_scene::chunk_ntrn(&r, 0).err(), Some(VoxErrorKind::InvalidTRNFrames(2)));
}

#[test]
fn matl_id_256_is_skipped() {
    let mut payload = Vec::new();
    unparse::le_u32(&mut payload, 256);
    payload.extend(dict_bytes(&[("_type", "_metal"), ("_metal", "0.5")]));
    let file = file_with(&container(b"MATL", &payload));
    let scene = parse::file_custom(&file, &read_f32).unwrap();
    assert_eq!(scene.palette[254].mat_type, MaterialType::Diffuse);
    assert_eq!(scene.palette[254].rgba, (0x11, 0x11, 0x11, 0xff));
}

#[test]
fn matl_id_0_is_ignored() {
    let mut payload = Vec::new();
    unparse::le_u32(&mut payload, 0);
    payload.extend(dict_bytes(&[("_type", "_glass")]));
    let file = file_with(&container(b"MATL", &payload));
    let scene = parse::file_custom(&file, &read_f32).unwrap();
    assert!(scene.palette.iter().all(|m| m.mat_type == MaterialType::Diffuse));
}

#[test]
fn matl_errors() {
    let mut p = Vec::new();
    unparse::le_u32(&mut p, 3);
    p.extend(dict_bytes(&[("_weight", "0.5")]));
    assert_eq!(parse::chunk_material::chunk_matl(&p, 0, &read_f32).err(), Some(VoxErrorKind::InvalidMatlType));
    let mut q = Vec::new();
    unparse::le_u32(&mut q, 3);
    q.extend(dict_bytes(&[("_type", "_glass"), ("_weight", "1.5")]));
    assert_eq!(parse::chunk_material::chunk_matl(&q, 0, &read_f32).err(), Some(VoxErrorKind::InvalidMatlProperty));
    let mut r = Vec::new();
    unparse::le_u32(&mut r, 3);
    r.extend(dict_bytes(&[("_type", "_glass"), ("_rough", "rough")]));
    assert_eq!(parse::chunk_material::chunk_matl(&r, 0, &read_f32).err(), Some(VoxErrorKind::InvalidMatlProperty));
    let mut s = Vec::new();
    unparse::le_u32(&mut s, 300);
    s.extend(dict_bytes(&[("_type", "_glass")]));
    assert_eq!(parse::chunk_material::chunk_matl(&s, 0, &read_f32).err(), Some(VoxErrorKind::InvalidMatlId(300)));
    let file = file_with(&container(b"MATL", &s));
    assert_eq!(parse::file_custom(&file, &read_f32).err(), Some(VoxErrorKind::InvalidMatlId(300)));
}

#[test]
fn matl_properties_decode() {
    let mut p = Vec::new();
    unparse::le_u32(&mut p, 9);
    p.extend(dict_bytes(&[("_type", "_emit"), ("_emit", "0.25"), ("_flux", "3"), ("_plastic", "1"), ("_emit", "0.75")]));
    let (m, n) = parse::chunk_material::chunk_matl(&p, 0, &read_f32).unwrap();
    assert_eq!(n, p.len());
    assert_eq!(m.id, 9);
    assert_eq!(m.prop_type, MatlType::Emit);
    assert_eq!(m.prop_emit, Some(0.75f32.to_bits()));
    assert_eq!(m.prop_flux, Some(3));
    assert!(m.prop_plastic);
    assert_eq!(
        vox_parser::convert::matl2material(&m),
        MaterialType::Emit(EmitMaterial { prop_emit: 0.75f32.to_bits(), prop_flux: 3, prop_ldr: 0 })
    );
}

#[test]
fn matt_decodes_and_checks() {
    let m = Matt {
        id: 4,
        matt_type: MattType::Glass(0.5f32.to_bits()),
        prop_plastic: Some(1.0f32.to_bits()),
        prop_roughness: None,
        prop_specular: Some(0.25f32.to_bits()),
        prop_ior: None,
        prop_attenuation: None,
        prop_power: None,
        prop_glow: None,
        prop_is_total_power: true,
    };
    let mut p = Vec::new();
    unparse::chunk_matt(&mut p, &m);
    let back = parse::chunk_material::chunk_matt_all(&p).unwrap();
    assert_eq!(back.id, 4);
    assert_eq!(back.matt_type, MattType::Glass(0.5f32.to_bits()));
    assert_eq!(back.prop_plastic, Some(1.0f32.to_bits()));
    assert_eq!(back.prop_specular, Some(0.25f32.to_bits()));
    assert!(back.prop_is_total_power);
    assert_eq!(
        vox_parser::convert::matt2material(&back),
        MaterialType::Glass(GlassMaterial { prop_rough: 0, prop_ior: 0, prop_weight: 0.5f32.to_bits() })
    );
    let mut bad = Vec::new();
    unparse::le_u32(&mut bad, 0);
    assert_eq!(parse::chunk_material::chunk_matt(&bad, 0).err(), Some(VoxErrorKind::InvalidMattId(0)));
    let mut bad_type = Vec::new();
    unparse::le_u32(&mut bad_type, 1);
    unparse::le_u32(&mut bad_type, 0);
    unparse::le_u32(&mut bad_type, 0.5f32.to_bits());
    assert_eq!(parse::chunk_material::chunk_matt(&bad_type, 0).err(), Some(VoxErrorKind::InvalidMattType));
    let mut bad_prop = Vec::new();
    unparse::le_u32(&mut bad_prop, 1);
    unparse::le_u32(&mut bad_prop, 1);
    unparse::le_u32(&mut bad_prop, 0.5f32.to_bits());
    unparse::le_u32(&mut bad_prop, 2);
    unparse::le_u32(&mut bad_prop, 2.0f32.to_bits());
    assert_eq!(parse::chunk_material::chunk_matt(&bad_prop, 0).err(), Some(VoxErrorKind::InvalidMattProperty));
}

#[test]
fn emissive_power_becomes_flux() {
    let m = Matt {
        id: 1,
        matt_type: MattType::Emissive(0.5f32.to_bits()),
        prop_plastic: None,
        prop_roughness: None,
        prop_specular: None,
        prop_ior: None,
        prop_attenuation: None,
        prop_power: Some(1.0f32.to_bits()),
        prop_glow: None,
        prop_is_total_power: false,
    };
    assert_eq!(
        vox_parser::convert::matt2material(&m),
        MaterialType::Emit(EmitMaterial { prop_emit: 0.5f32.to_bits(), prop_flux: 1, prop_ldr: 0 })
    );
}

#[test]
fn file_header_errors() {
    let mut bad_magic = file_with(&[]);
    bad_magic[0] = b'W';
    assert_eq!(parse::file_custom(&bad_magic, &read_f32).err(), Some(VoxErrorKind::InvalidTag));
    let mut v = b"VOX ".to_vec();
    unparse::le_u32(&mut v, 200);
    assert_eq!(parse::file_custom(&v, &read_f32).err(), Some(VoxErrorKind::FileVersionUnknown(200)));
    let mut main = b"VOX ".to_vec();
    unparse::le_u32(&mut main, 150);
    unparse::raw_chunk(&mut main, b"MAIN", &[1], &[]);
    assert_eq!(parse::file_custom(&main, &read_f32).err(), Some(VoxErrorKind::InvalidMainChunk));
    let mut trailing = file_with(&[]);
    trailing.push(0);
    assert_eq!(parse::file_custom(&trailing, &read_f32).err(), Some(VoxErrorKind::TrailingBytes));
    let truncated = &file_with(&container(b"SIZE", &[0; 12]))[..20];
    assert_eq!(parse::file_custom(truncated, &read_f32).err(), Some(VoxErrorKind::UnexpectedEnd));
}

#[test]
fn unknown_chunk_is_skipped() {
    let file = file_with(&container(b"rOBJ", &[1, 2, 3]));
    assert!(parse::file_custom(&file, &read_f32).is_ok());
    assert_eq!(parse::chunk(*b"rOBJ", &[1, 2, 3], &read_f32).err(), Some(VoxErrorKind::UnknownChunk(*b"rOBJ")));
}

#[test]
fn raw_chunk_children_must_tile() {
    let child = container(b"SIZE", &[0; 12]);
    let mut two = child.clone();
    two.extend(&child);
    let mut outer = Vec::new();
    unparse::raw_chunk(&mut outer, b"MAIN", &[], &two);
    let (c, n) = parse::raw_chunk(Some(*b"MAIN"), &outer).unwrap();
    assert_eq!(n, outer.len());
    assert_eq!(c.children.len(), 2);
    assert_eq!(c.children[1].tag, *b"SIZE");
    assert_eq!(c.children[1].payload_data, vec![0; 12]);
    let mut bad = Vec::new();
    unparse::raw_chunk(&mut bad, b"MAIN", &[], &two[..30]);
    assert_eq!(parse::raw_chunk(None, &bad).err(), Some(VoxErrorKind::UnexpectedEnd));
    assert_eq!(parse::raw_chunk(Some(*b"PACK"), &outer).err(), Some(VoxErrorKind::InvalidTag));
}

#[test]
fn string_and_dict_codecs() {
    let mut v = Vec::new();
    unparse::string(&mut v, "héllo");
    assert_eq!(v[..4], [6, 0, 0, 0]);
    let (s, n) = parse::string(&v, 0).unwrap();
    assert_eq!(s, "héllo");
    assert_eq!(n, 10);
    let bad = [2, 0, 0, 0, 0xff, 0xfe];
    assert_eq!(parse::string(&bad, 0).err(), Some(VoxErrorKind::InvalidUTF8String));
    let d = dict_bytes(&[("a", "1"), ("b", "2"), ("a", "3")]);
    let (pairs, m) = parse::dict(&d, 0).unwrap();
    assert_eq!(m, d.len());
    assert_eq!(pairs.len(), 3);
    assert_eq!(parse::special::dict_find(&pairs, "a").map(|s| s.as_str()), Some("3"));
    assert_eq!(parse::special::dict_find(&pairs, "c"), None);
}

#[test]
fn layr_decodes() {
    let l = Layr { id: 3, name: Some("x".to_string()), is_hidden: true };
    let mut p = Vec::new();
    unparse::chunk_layr(&mut p, &l);
    let back = parse::chunk_scene::chunk_layr_all(&p).unwrap();
    assert_eq!(back.id, 3);
    assert_eq!(back.name.as_deref(), Some("x"));
    assert!(back.is_hidden);
    let mut q = Vec::new();
    unparse::le_u32(&mut q, 0);
    q.extend(dict_bytes(&[]));
    unparse::le_u32(&mut q, 7);
    assert_eq!(parse::chunk_scene::chunk_layr_all(&q).err(), Some(VoxErrorKind::InvalidLayrReserved(7)));
    let mut r = Vec::new();
    unparse::le_u32(&mut r, 0);
    r.extend(dict_bytes(&[("_is_hidden", "yes")]));
    unparse::le_u32(&mut r, 0xFFFF_FFFF);
    assert_eq!(parse::chunk_scene::chunk_layr_all(&r).err(), Some(VoxErrorKind::InvalidLayrProperty));
}

#[test]
fn nshp_model_count_checked() {
    let mut p = Vec::new();
    unparse::le_u32(&mut p, 1);
    p.extend(dict_bytes(&[]));
    unparse::le_u32(&mut p, 2);
    assert_eq!(parse::chunk_scene::chunk_nshp(&p, 0).err(), Some(VoxErrorKind::InvalidSHPModelCount(2)));
}

#[test]
fn negative_layer_id_fails() {
    let mut p = Vec::new();
    unparse::le_u32(&mut p, 0);
    p.extend(dict_bytes(&[]));
    unparse::le_u32(&mut p, 1);
    unparse::le_u32(&mut p, 0xFFFF_FFFF);
    unparse::le_u32(&mut p, 0xFFFF_FFFE);
    assert_eq!(parse::chunk_scene::chunk_ntrn(&p, 0).err(), Some(VoxErrorKind::InvalidLayrId));
}

#[test]
fn parse_serialize_parse_is_stable() {
    let mut chunks = Vec::new();
    chunks.push(Chunk::SIZE((4, 5, 6)));
    chunks.push(Chunk::XYZI(vec![(1, 2, 3, 4), (0, 0, 0, 9)]));
    chunks.push(Chunk::SIZE((1, 1, 1)));
    chunks.push(Chunk::XYZI(vec![]));
    let mut t = TransformNode {
        node_id: 0,
        name: Some("root".to_string()),
        is_hidden: true,
        child_node_id: 1,
        layer_id: Some(1),
        rotation: MatRowCols::ThreeOneTwo(true, false, true),
        translation: (-10, 20, -2147483647),
    };
    chunks.push(Chunk::NTRN(t));
    chunks.push(Chunk::NGRP(vox_parser::data::chunks::GroupNode { node_id: 1, attributes: vec![], child_nodes: vec![2] }));
    t = TransformNode {
        node_id: 2,
        name: None,
        is_hidden: false,
        child_node_id: 3,
        layer_id: None,
        rotation: MatRowCols::identity(),
        translation: (0, 0, 0),
    };
    chunks.push(Chunk::NTRN(t));
    chunks.push(Chunk::NSHP(vox_parser::data::chunks::ShapeNode { node_id: 3, attributes: vec![], model_id: 1, model_attributes: vec![] }));
    chunks.push(Chunk::LAYR(Layr { id: 1, name: Some("one".to_string()), is_hidden: true }));
    let mut metal = Matl::new(2, MatlType::Metal);
    metal.prop_rough = Some(0.125f32.to_bits());
    metal.prop_ior = Some(0.3f32.to_bits());
    chunks.push(Chunk::MATL(metal));
    let mut glass = Matl::new(3, MatlType::Glass);
    glass.prop_weight = Some(0.75f32.to_bits());
    chunks.push(Chunk::MATL(glass));
    let mut emit = Matl::new(4, MatlType::Emit);
    emit.prop_flux = Some(4);
    chunks.push(Chunk::MATL(emit));
    let bytes = unparse::file_raw(&chunks, &write_f32);
    let first = parse::file_custom(&bytes, &read_f32).unwrap();
    assert_eq!(
        first.palette[1].mat_type,
        MaterialType::Metal(MetalMaterial { prop_rough: 0.125f32.to_bits(), prop_ior: 0.3f32.to_bits(), prop_metal: 0 })
    );
    assert_eq!(first.layers.len(), 2);
    match &first.graph.node_type {
        NodeType::Group(cs) => assert_eq!(cs[0].node_type, NodeType::Shape(1)),
        _ => panic!("expected a group"),
    }
    let again = unparse::file_custom(&first, &write_f32);
    let second = parse::file_custom(&again, &read_f32).unwrap();
    assert_eq!(first, second);
    let flat = from_custom(&second);
    assert_eq!(flat.len(), 4 + 1 + 4 + 2 + 255);
}
