//! Payload parsers of the material chunks: `MATT` and `MATL`.
//!
//! Floats are IEEE-754 bit patterns. A non-negative float orders as its bit
//! pattern; a pattern with the sign bit (`0x8000_0000`) set is negative, or
//! `-0.0` for the sign bit alone. So the range checks below are integer
//! comparisons on the patterns.

use vstd::prelude::*;
use vstd::utf8::encode_utf8;
use crate::data::chunks::{Dict, Matt, MattType, Matl, MatlType};
use crate::parse::error::VoxErrorKind;
use crate::parse::helpers::{spec_u32, spec_i32, read_u32, read_i32};
use crate::parse::special::{spec_dict, dict_view, dict_get, dict, dict_find, text_is};
use crate::parse::number::{spec_unsigned, parse_unsigned};
use crate::parse::chunk_scene::spec_flag;

verus! {

/// Bit pattern of the float 1.0.
pub open spec fn one_bits() -> u32 {
    0x3F80_0000
}

/// The float is in (0.0, 1.0].
pub open spec fn in_unit_open_closed(b: u32) -> bool {
    1 <= b <= one_bits()
}

/// The float is in [0.0, 1.0] (`-0.0` included, as it equals 0.0).
pub open spec fn in_unit_closed(b: u32) -> bool {
    b <= one_bits() || b == 0x8000_0000
}

/// The float equals 0.0 or 1.0.
pub open spec fn is_zero_or_one(b: u32) -> bool {
    b == 0 || b == 0x8000_0000 || b == one_bits()
}

/// Bit `k` of `bits` is set.
pub open spec fn bit_set(bits: u32, k: u32) -> bool {
    (bits >> k) & 1u32 == 1u32
}

/// The `MATT` type with its weight: 0 is diffuse (weight 1.0); 1 metal, 2
/// glass, 3 emissive, each with a weight in (0.0, 1.0].
pub open spec fn spec_matt_type(ty: u32, w: u32) -> Option<MattType> {
    if ty == 0 {
        if w == one_bits() { Some(MattType::Diffuse) } else { None }
    } else if ty <= 3 {
        if !in_unit_open_closed(w) {
            None
        } else if ty == 1 {
            Some(MattType::Metal(w))
        } else if ty == 2 {
            Some(MattType::Glass(w))
        } else {
            Some(MattType::Emissive(w))
        }
    } else {
        None
    }
}

/// The range that `MATT` property `k` must be in: plastic (k = 0) is 0.0 or
/// 1.0, the others are in (0.0, 1.0].
pub open spec fn matt_prop_ok(k: u32, v: u32) -> bool {
    if k == 0 { is_zero_or_one(v) } else { in_unit_open_closed(v) }
}

/// The first `k` optional `MATT` properties, which follow at `pos`: property
/// `i` is there iff bit `i` is set.
pub open spec fn spec_matt_props(s: Seq<u8>, pos: int, bits: u32, k: nat) -> Result<(Seq<Option<u32>>, int), VoxErrorKind>
    decreases k,
{
    if k == 0 {
        Ok((Seq::empty(), pos))
    } else {
        match spec_matt_props(s, pos, bits, (k - 1) as nat) {
            Err(e) => Err(e),
            Ok((ps, q)) => if bit_set(bits, (k - 1) as u32) {
                match spec_u32(s, q) {
                    Err(e) => Err(e),
                    Ok((v, q2)) => if matt_prop_ok((k - 1) as u32, v) {
                        Ok((ps.push(Some(v)), q2))
                    } else {
                        Err(VoxErrorKind::InvalidMattProperty)
                    },
                }
            } else {
                Ok((ps.push(None), q))
            },
        }
    }
}

/// `MATT`: id in [1, 255], type, weight, property bits, then the properties
/// that the bits select (bit 7: the power is the total power).
#[verifier::opaque]
pub open spec fn spec_matt(s: Seq<u8>, pos: int) -> Result<(Matt, int), VoxErrorKind> {
    match spec_u32(s, pos) {
        Err(e) => Err(e),
        Ok((id, p1)) => if id < 1 || id > 255 {
            Err(VoxErrorKind::InvalidMattId(id))
        } else {
            match (spec_u32(s, p1), spec_u32(s, p1 + 4)) {
                (Err(e), _) => Err(e),
                (_, Err(e)) => Err(e),
                (Ok((ty, _)), Ok((w, p3))) => match spec_matt_type(ty, w) {
                    None => Err(VoxErrorKind::InvalidMattType),
                    Some(mt) => match spec_u32(s, p3) {
                        Err(e) => Err(e),
                        Ok((bits, p4)) => match spec_matt_props(s, p4, bits, 7) {
                            Err(e) => Err(e),
                            Ok((ps, p5)) => Ok((Matt {
                                id: id as u8,
                                matt_type: mt,
                                prop_plastic: ps[0],
                                prop_roughness: ps[1],
                                prop_specular: ps[2],
                                prop_ior: ps[3],
                                prop_attenuation: ps[4],
                                prop_power: ps[5],
                                prop_glow: ps[6],
                                prop_is_total_power: bit_set(bits, 7),
                            }, p5)),
                        },
                    },
                },
            }
        },
    }
}

/// Once reading the properties fails, reading more fails the same way.
proof fn lemma_props_err(s: Seq<u8>, pos: int, bits: u32, m: nat, m2: nat)
    requires
        m <= m2,
        spec_matt_props(s, pos, bits, m) is Err,
    ensures
        spec_matt_props(s, pos, bits, m2) == spec_matt_props(s, pos, bits, m),
    decreases m2 - m,
{
    if m < m2 {
        lemma_props_err(s, pos, bits, m, (m2 - 1) as nat);
    }
}

/// Parses the payload of the `MATT` chunk at `pos`.
pub fn chunk_matt(input: &[u8], pos: usize) -> (r: Result<(Matt, usize), VoxErrorKind>)
    ensures
        match r {
            Ok((m, p)) => spec_matt(input@, pos as int) == Ok::<(Matt, int), VoxErrorKind>((m, p as int)),
            Err(e) => spec_matt(input@, pos as int) == Err::<(Matt, int), VoxErrorKind>(e),
        },
{
    proof {
        reveal(spec_matt);
    }
    let (id, p1) = read_u32(input, pos)?;
    if id < 1 || id > 255 {
        return Err(VoxErrorKind::InvalidMattId(id));
    }
    let (ty, p2) = read_u32(input, p1)?;
    let (w, p3) = read_u32(input, p2)?;
    let matt_type = if ty == 0 {
        if w != 0x3F80_0000 {
            return Err(VoxErrorKind::InvalidMattType);
        }
        MattType::Diffuse
    } else if ty <= 3 {
        if !(1 <= w && w <= 0x3F80_0000) {
            return Err(VoxErrorKind::InvalidMattType);
        }
        if ty == 1 {
            MattType::Metal(w)
        } else if ty == 2 {
            MattType::Glass(w)
        } else {
            MattType::Emissive(w)
        }
    } else {
        return Err(VoxErrorKind::InvalidMattType);
    };
    let (bits, p4) = read_u32(input, p3)?;
    let mut props: Vec<Option<u32>> = Vec::new();
    let mut q = p4;
    let mut k: u32 = 0;
    while k < 7
        invariant
            k <= 7,
            props@.len() == k,
            spec_u32(input@, pos as int) == Ok::<(u32, int), VoxErrorKind>((id, p1 as int)),
            1 <= id <= 255,
            spec_u32(input@, p1 as int) == Ok::<(u32, int), VoxErrorKind>((ty, p2 as int)),
            p2 == p1 + 4,
            spec_u32(input@, p2 as int) == Ok::<(u32, int), VoxErrorKind>((w, p3 as int)),
            spec_matt_type(ty, w) == Some(matt_type),
            spec_u32(input@, p3 as int) == Ok::<(u32, int), VoxErrorKind>((bits, p4 as int)),
            spec_matt_props(input@, p4 as int, bits, k as nat) == Ok::<(Seq<Option<u32>>, int), VoxErrorKind>((props@, q as int)),
        decreases 7 - k,
    {
        if (bits >> k) & 1 == 1 {
            let (v, q2) = match read_u32(input, q) {
                Ok(x) => x,
                Err(e) => {
                    assert(spec_matt_props(input@, p4 as int, bits, (k + 1) as nat) == Err::<(Seq<Option<u32>>, int), VoxErrorKind>(e));
                    proof {
                        reveal(spec_matt);
                        lemma_props_err(input@, p4 as int, bits, (k + 1) as nat, 7);
                    }
                    return Err(e);
                },
            };
            let ok = if k == 0 {
                v == 0 || v == 0x8000_0000 || v == 0x3F80_0000
            } else {
                1 <= v && v <= 0x3F80_0000
            };
            if !ok {
                assert(!matt_prop_ok(k, v));
                assert(spec_matt_props(input@, p4 as int, bits, (k + 1) as nat)
                    == Err::<(Seq<Option<u32>>, int), VoxErrorKind>(VoxErrorKind::InvalidMattProperty));
                proof {
                    reveal(spec_matt);
                    lemma_props_err(input@, p4 as int, bits, (k + 1) as nat, 7);
                }
                return Err(VoxErrorKind::InvalidMattProperty);
            }
            props.push(Some(v));
            q = q2;
        } else {
            props.push(None);
        }
        k += 1;
    }
    let m = Matt {
        id: id as u8,
        matt_type,
        prop_plastic: props[0],
        prop_roughness: props[1],
        prop_specular: props[2],
        prop_ior: props[3],
        prop_attenuation: props[4],
        prop_power: props[5],
        prop_glow: props[6],
        prop_is_total_power: (bits >> 7) & 1 == 1,
    };
    Ok((m, q))
}

/// Parses the payload of a `MATT` chunk, which must be used up exactly.
pub fn chunk_matt_all(input: &[u8]) -> (r: Result<Matt, VoxErrorKind>)
    ensures
        r == crate::parse::chunk_model::all_consumed(spec_matt(input@, 0), input@),
{
    let (m, p) = chunk_matt(input, 0)?;
    if p != input.len() {
        return Err(VoxErrorKind::TrailingBytes);
    }
    Ok(m)
}

/// The `_type` of a `MATL`.
pub open spec fn spec_matl_type(v: Option<Seq<char>>) -> Option<MatlType> {
    match v {
        None => None,
        Some(t) => if t == "_diffuse"@ {
            Some(MatlType::Diffuse)
        } else if t == "_metal"@ {
            Some(MatlType::Metal)
        } else if t == "_glass"@ {
            Some(MatlType::Glass)
        } else if t == "_emit"@ {
            Some(MatlType::Emit)
        } else if t == "_blend"@ {
            Some(MatlType::Blend)
        } else if t == "_media"@ {
            Some(MatlType::Media)
        } else {
            None
        },
    }
}

/// The fixed part of `MATL`: an `i32` id in [0, 255], a DICT, and its
/// `_type`. Gives the id, the pairs, the type and the end.
#[verifier::opaque]
pub open spec fn spec_matl_head(s: Seq<u8>, pos: int) -> Result<(u8, Seq<(Seq<char>, Seq<char>)>, MatlType, int), VoxErrorKind> {
    match spec_i32(s, pos) {
        Err(e) => Err(e),
        Ok((id, p1)) => match spec_dict(s, p1) {
            Err(e) => Err(e),
            Ok((d, p2)) => if id < 0 || id > 255 {
                Err(VoxErrorKind::InvalidMatlId(id))
            } else {
                match spec_matl_type(dict_get(d, "_type"@)) {
                    None => Err(VoxErrorKind::InvalidMatlType),
                    Some(t) => Ok((id as u8, d, t, p2)),
                }
            },
        },
    }
}

/// `read_f32` can turn text `t` into `r`.
pub open spec fn reads_f32<F: Fn(&str) -> Option<u32>>(read_f32: F, t: Seq<char>, r: Option<u32>) -> bool {
    exists|x: &str| x@ == t && #[trigger] read_f32.ensures((x,), r)
}

/// A float property `r` read from the attribute `v`: absent gives `None`;
/// present, its text read as `r`, and for the weight within [0.0, 1.0].
pub open spec fn float_prop_valid<F: Fn(&str) -> Option<u32>>(read_f32: F, v: Option<Seq<char>>, r: Option<u32>, weight: bool) -> bool {
    match v {
        None => r is None,
        Some(t) => r is Some && reads_f32(read_f32, t, r) && (weight ==> in_unit_closed(r.unwrap())),
    }
}

/// The float attribute `v` is invalid: its text can be read as no float, or,
/// for the weight, as one outside [0.0, 1.0].
pub open spec fn float_prop_fails<F: Fn(&str) -> Option<u32>>(read_f32: F, v: Option<Seq<char>>, weight: bool) -> bool {
    match v {
        None => false,
        Some(t) => reads_f32(read_f32, t, None)
            || (weight && exists|b: u32| !in_unit_closed(b) && #[trigger] reads_f32(read_f32, t, Some(b))),
    }
}

/// The `_flux` attribute: absent, or a `u32`.
pub open spec fn spec_flux(v: Option<Seq<char>>) -> Option<Option<u32>> {
    match v {
        None => Some(None),
        Some(t) => match spec_unsigned(encode_utf8(t), u32::MAX as nat) {
            None => None,
            Some(n) => Some(Some(n as u32)),
        },
    }
}

/// The names of the float properties of `MATL`, in the order they are read.
pub open spec fn matl_float_key(k: int) -> Seq<char> {
    if k == 0 { "_weight"@ }
    else if k == 1 { "_rough"@ }
    else if k == 2 { "_spec"@ }
    else if k == 3 { "_ior"@ }
    else if k == 4 { "_att"@ }
    else if k == 5 { "_d"@ }
    else if k == 6 { "_alpha"@ }
    else if k == 7 { "_emit"@ }
    else if k == 8 { "_ldr"@ }
    else { "_metal"@ }
}

/// The float properties of a `MATL`, in the order of [`matl_float_key`].
pub open spec fn matl_floats(m: Matl) -> Seq<Option<u32>> {
    seq![m.prop_weight, m.prop_rough, m.prop_spec, m.prop_ior, m.prop_att, m.prop_density,
        m.prop_alpha, m.prop_emit, m.prop_ldr, m.prop_metal]
}

/// `m` is what a `MATL` with id `id`, pairs `d` and type `t` holds.
pub open spec fn matl_from<F: Fn(&str) -> Option<u32>>(read_f32: F, id: u8, d: Seq<(Seq<char>, Seq<char>)>, t: MatlType, m: Matl) -> bool {
    &&& m.id == id
    &&& m.prop_type == t
    &&& forall|k: int| 0 <= k < 10 ==> float_prop_valid(read_f32, dict_get(d, #[trigger] matl_float_key(k)), matl_floats(m)[k], k == 0)
    &&& spec_flux(dict_get(d, "_flux"@)) == Some(m.prop_flux)
    &&& spec_flag(dict_get(d, "_plastic"@)) == Some(m.prop_plastic)
}

/// Some property of the pairs `d` is invalid.
pub open spec fn matl_props_fail<F: Fn(&str) -> Option<u32>>(read_f32: F, d: Seq<(Seq<char>, Seq<char>)>) -> bool {
    ||| exists|k: int| 0 <= k < 10 && float_prop_fails(read_f32, dict_get(d, #[trigger] matl_float_key(k)), k == 0)
    ||| spec_flux(dict_get(d, "_flux"@)) is None
    ||| spec_flag(dict_get(d, "_plastic"@)) is None
}

/// Reads one float property (see [`float_prop_valid`]).
fn prop_f32<F: Fn(&str) -> Option<u32>>(d: &Dict, key: &str, weight: bool, read_f32: &F) -> (r: Result<Option<u32>, ()>)
    requires
        forall|x: &str| #[trigger] read_f32.requires((x,)),
    ensures
        match r {
            Ok(o) => float_prop_valid(*read_f32, dict_get(dict_view(d@), key@), o, weight),
            Err(_) => float_prop_fails(*read_f32, dict_get(dict_view(d@), key@), weight),
        },
{
    match dict_find(d, key) {
        None => Ok(None),
        Some(v) => {
            let x = v.as_str();
            let o = read_f32(x);
            assert(read_f32.ensures((x,), o));
            match o {
                None => Err(()),
                Some(b) => {
                    if weight && !(b <= 0x3F80_0000 || b == 0x8000_0000) {
                        assert(reads_f32(*read_f32, v@, Some(b)));
                        return Err(());
                    }
                    Ok(Some(b))
                },
            }
        },
    }
}

/// Reads the `_flux` attribute (see [`spec_flux`]).
fn prop_u32(d: &Dict) -> (r: Option<Option<u32>>)
    ensures
        r == spec_flux(dict_get(dict_view(d@), "_flux"@)),
{
    match dict_find(d, "_flux") {
        None => Some(None),
        Some(v) => match parse_unsigned(v.as_str().as_bytes(), u32::MAX) {
            None => None,
            Some(n) => Some(Some(n)),
        },
    }
}

/// Reads the `_plastic` attribute (see [`spec_flag`]).
fn prop_bool(d: &Dict) -> (r: Option<bool>)
    ensures
        r == spec_flag(dict_get(dict_view(d@), "_plastic"@)),
{
    match dict_find(d, "_plastic") {
        None => Some(false),
        Some(v) => if text_is(v, "0") {
            Some(false)
        } else if text_is(v, "1") {
            Some(true)
        } else {
            None
        },
    }
}

/// Reads the `_type` attribute (see [`spec_matl_type`]).
fn matl_type(d: &Dict) -> (r: Option<MatlType>)
    ensures
        r == spec_matl_type(dict_get(dict_view(d@), "_type"@)),
{
    match dict_find(d, "_type") {
        None => None,
        Some(v) => if text_is(v, "_diffuse") {
            Some(MatlType::Diffuse)
        } else if text_is(v, "_metal") {
            Some(MatlType::Metal)
        } else if text_is(v, "_glass") {
            Some(MatlType::Glass)
        } else if text_is(v, "_emit") {
            Some(MatlType::Emit)
        } else if text_is(v, "_blend") {
            Some(MatlType::Blend)
        } else if text_is(v, "_media") {
            Some(MatlType::Media)
        } else {
            None
        },
    }
}

/// Parses the payload of the `MATL` chunk at `pos`. The decimal text of the
/// float properties is turned into float bits by `read_f32`.
pub fn chunk_matl<F: Fn(&str) -> Option<u32>>(input: &[u8], pos: usize, read_f32: &F) -> (r: Result<(Matl, usize), VoxErrorKind>)
    requires
        forall|x: &str| #[trigger] read_f32.requires((x,)),
    ensures
        match r {
            Ok((m, p)) => match spec_matl_head(input@, pos as int) {
                Ok((id, d, t, end)) => end == p && matl_from(*read_f32, id, d, t, m),
                Err(_) => false,
            },
            Err(e) => match spec_matl_head(input@, pos as int) {
                Ok((_, d, _, _)) => e == VoxErrorKind::InvalidMatlProperty && matl_props_fail(*read_f32, d),
                Err(e2) => e == e2,
            },
        },
{
    proof {
        reveal(spec_matl_head);
    }
    let (id, p1) = read_i32(input, pos)?;
    let (d, p2) = dict(input, p1)?;
    if id < 0 || id > 255 {
        return Err(VoxErrorKind::InvalidMatlId(id));
    }
    let prop_type = match matl_type(&d) {
        Some(t) => t,
        None => return Err(VoxErrorKind::InvalidMatlType),
    };
    let ghost dv = dict_view(d@);
    let bad = Err(VoxErrorKind::InvalidMatlProperty);
    let prop_weight = match prop_f32(&d, "_weight", true, read_f32) { Ok(o) => o, Err(_) => { assert(matl_float_key(0) == "_weight"@); return bad; } };
    let prop_rough = match prop_f32(&d, "_rough", false, read_f32) { Ok(o) => o, Err(_) => { assert(matl_float_key(1) == "_rough"@); return bad; } };
    let prop_spec = match prop_f32(&d, "_spec", false, read_f32) { Ok(o) => o, Err(_) => { assert(matl_float_key(2) == "_spec"@); return bad; } };
    let prop_ior = match prop_f32(&d, "_ior", false, read_f32) { Ok(o) => o, Err(_) => { assert(matl_float_key(3) == "_ior"@); return bad; } };
    let prop_att = match prop_f32(&d, "_att", false, read_f32) { Ok(o) => o, Err(_) => { assert(matl_float_key(4) == "_att"@); return bad; } };
    let prop_flux = match prop_u32(&d) { Some(o) => o, None => return bad };
    let prop_density = match prop_f32(&d, "_d", false, read_f32) { Ok(o) => o, Err(_) => { assert(matl_float_key(5) == "_d"@); return bad; } };
    let prop_alpha = match prop_f32(&d, "_alpha", false, read_f32) { Ok(o) => o, Err(_) => { assert(matl_float_key(6) == "_alpha"@); return bad; } };
    let prop_emit = match prop_f32(&d, "_emit", false, read_f32) { Ok(o) => o, Err(_) => { assert(matl_float_key(7) == "_emit"@); return bad; } };
    let prop_ldr = match prop_f32(&d, "_ldr", false, read_f32) { Ok(o) => o, Err(_) => { assert(matl_float_key(8) == "_ldr"@); return bad; } };
    let prop_metal = match prop_f32(&d, "_metal", false, read_f32) { Ok(o) => o, Err(_) => { assert(matl_float_key(9) == "_metal"@); return bad; } };
    let prop_plastic = match prop_bool(&d) { Some(b) => b, None => return bad };
    let m = Matl {
        id: id as u8,
        prop_type,
        prop_weight,
        prop_rough,
        prop_spec,
        prop_ior,
        prop_att,
        prop_flux,
        prop_density,
        prop_alpha,
        prop_emit,
        prop_ldr,
        prop_metal,
        prop_plastic,
    };
    assert forall|k: int| 0 <= k < 10 implies float_prop_valid(*read_f32, dict_get(dv, #[trigger] matl_float_key(k)), matl_floats(m)[k], k == 0) by {
        if k == 0 {} else if k == 1 {} else if k == 2 {} else if k == 3 {} else if k == 4 {}
        else if k == 5 {} else if k == 6 {} else if k == 7 {} else if k == 8 {} else {}
    }
    Ok((m, p2))
}

/// Parses the payload of a `MATL` chunk, which must be used up exactly.
pub fn chunk_matl_all<F: Fn(&str) -> Option<u32>>(input: &[u8], read_f32: &F) -> (r: Result<Matl, VoxErrorKind>)
    requires
        forall|x: &str| #[trigger] read_f32.requires((x,)),
    ensures
        match r {
            Ok(m) => match spec_matl_head(input@, 0) {
                Ok((id, d, t, end)) => end == input@.len() && matl_from(*read_f32, id, d, t, m),
                Err(_) => false,
            },
            Err(e) => match spec_matl_head(input@, 0) {
                Ok((_, d, _, end)) => (e == VoxErrorKind::InvalidMatlProperty && matl_props_fail(*read_f32, d))
                    || (e == VoxErrorKind::TrailingBytes && end != input@.len()),
                Err(e2) => e == e2,
            },
        },
{
    let (m, p) = chunk_matl(input, 0, read_f32)?;
    if p != input.len() {
        return Err(VoxErrorKind::TrailingBytes);
    }
    Ok(m)
}

} // verus!
