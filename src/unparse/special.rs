//! Writers for the format's micro-types: `STRING`, `DICT` and `ROTATION`.

use vstd::prelude::*;
use vstd::utf8::{encode_utf8, valid_utf8, decode_utf8};
use crate::data::special::{MatRowCols, row_cols, row_negs};
use crate::parse::error::VoxErrorKind;
use crate::parse::special::{spec_string, spec_pairs, spec_dict, spec_rotation};
use crate::unparse::helpers::{le_u32, u32_le_bytes, lemma_u32_round_trip};

verus! {

/// The UTF-8 bytes of a text.
pub open spec fn utf8_len(s: Seq<char>) -> int {
    encode_utf8(s).len() as int
}

/// A `STRING`: the byte length, then the UTF-8 bytes.
pub open spec fn string_bytes(s: Seq<char>) -> Seq<u8> {
    u32_le_bytes(encode_utf8(s).len() as u32) + encode_utf8(s)
}

/// The key/value pairs of a `DICT`, one after the other.
pub open spec fn pairs_bytes(d: Seq<(Seq<char>, Seq<char>)>) -> Seq<u8>
    decreases d.len(),
{
    if d.len() == 0 {
        Seq::empty()
    } else {
        pairs_bytes(d.drop_last()) + string_bytes(d.last().0) + string_bytes(d.last().1)
    }
}

/// A `DICT`: the pair count, then the pairs.
#[verifier::opaque]
pub open spec fn dict_bytes(d: Seq<(Seq<char>, Seq<char>)>) -> Seq<u8> {
    u32_le_bytes(d.len() as u32) + pairs_bytes(d)
}

/// Every key and value of the dictionary fits a `STRING`, and so does their count.
pub open spec fn dict_fits(d: Seq<(Seq<char>, Seq<char>)>) -> bool {
    &&& d.len() <= u32::MAX
    &&& forall|i: int| 0 <= i < d.len() ==> utf8_len(#[trigger] d[i].0) <= u32::MAX && utf8_len(d[i].1) <= u32::MAX
}

/// Writes the `STRING` type.
pub fn string(dst: &mut Vec<u8>, v: &str)
    ensures
        final(dst)@ == old(dst)@ + string_bytes(v@),
{
    let bs = v.as_bytes();
    le_u32(dst, bs.len() as u32);
    let ghost mid = dst@;
    let mut i: usize = 0;
    while i < bs.len()
        invariant
            i <= bs@.len(),
            bs@ == encode_utf8(v@),
            dst@ == mid + bs@.subrange(0, i as int),
        decreases bs@.len() - i,
    {
        dst.push(bs[i]);
        i += 1;
        assert(dst@ =~= mid + bs@.subrange(0, i as int));
    }
    assert(bs@.subrange(0, bs@.len() as int) =~= bs@);
    assert(final(dst)@ =~= old(dst)@ + string_bytes(v@));
}

/// Writes the `DICT` type, pair by pair in vector order.
pub fn dict(dst: &mut Vec<u8>, m: &Vec<(String, String)>)
    ensures
        final(dst)@ == old(dst)@ + dict_bytes(crate::parse::special::dict_view(m@)),
{
    reveal(dict_bytes);
    let ghost d = crate::parse::special::dict_view(m@);
    le_u32(dst, m.len() as u32);
    let ghost mid = dst@;
    let mut i: usize = 0;
    while i < m.len()
        invariant
            i <= m@.len(),
            d == crate::parse::special::dict_view(m@),
            dst@ == mid + pairs_bytes(d.subrange(0, i as int)),
        decreases m@.len() - i,
    {
        assert(d[i as int] == (m@[i as int].0@, m@[i as int].1@));
        string(dst, m[i].0.as_str());
        string(dst, m[i].1.as_str());
        proof {
            let sub = d.subrange(0, i + 1);
            assert(sub.drop_last() =~= d.subrange(0, i as int));
            assert(sub.last() == d[i as int]);
        }
        i += 1;
    }
    assert(d.subrange(0, d.len() as int) =~= d);
    assert(final(dst)@ =~= old(dst)@ + dict_bytes(d));
}

/// The text of each key and value of a dictionary of borrowed strings.
pub open spec fn dict_ref_view(d: Seq<(&str, &str)>) -> Seq<(Seq<char>, Seq<char>)> {
    d.map_values(|e: (&str, &str)| (e.0@, e.1@))
}

/// Writes the `DICT` type, where the keys and values are borrowed strings.
pub fn dict_ref(dst: &mut Vec<u8>, m: &Vec<(&str, &str)>)
    ensures
        final(dst)@ == old(dst)@ + dict_bytes(dict_ref_view(m@)),
{
    reveal(dict_bytes);
    let ghost d = dict_ref_view(m@);
    le_u32(dst, m.len() as u32);
    let ghost mid = dst@;
    let mut i: usize = 0;
    while i < m.len()
        invariant
            i <= m@.len(),
            d == dict_ref_view(m@),
            dst@ == mid + pairs_bytes(d.subrange(0, i as int)),
        decreases m@.len() - i,
    {
        assert(d[i as int] == (m@[i as int].0@, m@[i as int].1@));
        string(dst, m[i].0);
        string(dst, m[i].1);
        proof {
            let sub = d.subrange(0, i + 1);
            assert(sub.drop_last() =~= d.subrange(0, i as int));
            assert(sub.last() == d[i as int]);
        }
        i += 1;
    }
    assert(d.subrange(0, d.len() as int) =~= d);
    assert(final(dst)@ =~= old(dst)@ + dict_bytes(d));
}

/// The `ROTATION` byte of a matrix (bit 7 clear).
pub open spec fn rotation_byte(m: MatRowCols) -> u8 {
    let (c1, c2, _) = row_cols(m);
    let (n1, n2, n3) = row_negs(m);
    (c1 + 4 * c2 + (if n1 { 16int } else { 0 }) + (if n2 { 32int } else { 0 }) + (if n3 { 64int } else { 0 })) as u8
}

/// Converts the `ROTATION` structure [`MatRowCols`] into a byte.
pub fn rotation_u8(m: MatRowCols) -> (r: u8)
    ensures
        r == rotation_byte(m),
{
    let (r1, r2, is_neg1, is_neg2, is_neg3): (u8, u8, bool, bool, bool) = match m {
        MatRowCols::OneTwoThree(a, b, c) => (0, 1, a, b, c),
        MatRowCols::OneThreeTwo(a, b, c) => (0, 2, a, b, c),
        MatRowCols::TwoOneThree(a, b, c) => (1, 0, a, b, c),
        MatRowCols::TwoThreeOne(a, b, c) => (1, 2, a, b, c),
        MatRowCols::ThreeOneTwo(a, b, c) => (2, 0, a, b, c),
        MatRowCols::ThreeTwoOne(a, b, c) => (2, 1, a, b, c),
    };
    r1 + 4 * r2 + 16 * b2i(is_neg1) + 32 * b2i(is_neg2) + 64 * b2i(is_neg3)
}

/// Converts a boolean to `1` (true) or `0` (false).
fn b2i(b: bool) -> (r: u8)
    ensures
        r == (if b { 1u8 } else { 0u8 }),
{
    if b { 1 } else { 0 }
}

/// Decoding the byte of a matrix gives that matrix back.
pub proof fn lemma_rotation_round_trip(m: MatRowCols)
    ensures
        spec_rotation(rotation_byte(m)) == Some(m),
{
}

/// A byte that decodes to a matrix is, but for its unused bit 7, the byte of
/// that matrix.
pub proof fn lemma_rotation_byte_canonical(b: u8)
    requires
        spec_rotation(b) is Some,
    ensures
        rotation_byte(spec_rotation(b).unwrap()) == b % 128,
{
    assert(b % 128 == b % 4 + 4 * ((b / 4) % 4) + 16 * ((b / 16) % 2) + 32 * ((b / 32) % 2) + 64 * ((b / 64) % 2))
        by (bit_vector);
}

/// A part of a part that stands at `pos` in `s` is the same part of `s`.
pub proof fn lemma_sub_of_sub(s: Seq<u8>, pos: int, whole: Seq<u8>, a: int, b: int)
    requires
        0 <= pos,
        pos + whole.len() <= s.len(),
        s.subrange(pos, pos + whole.len()) == whole,
        0 <= a <= b <= whole.len(),
    ensures
        s.subrange(pos + a, pos + b) == whole.subrange(a, b),
{
    assert forall|i: int| 0 <= i < b - a implies s.subrange(pos + a, pos + b)[i] == whole.subrange(a, b)[i] by {
        assert(s.subrange(pos, pos + whole.len())[a + i] == whole[a + i]);
    }
    assert(s.subrange(pos + a, pos + b) =~= whole.subrange(a, b));
}

/// A written `STRING` reads back as the same text, whatever follows it.
pub proof fn lemma_string_round_trip(s: Seq<u8>, pos: int, v: Seq<char>)
    requires
        0 <= pos,
        utf8_len(v) <= u32::MAX,
        pos + string_bytes(v).len() <= s.len(),
        s.subrange(pos, pos + string_bytes(v).len()) == string_bytes(v),
    ensures
        spec_string(s, pos) == Ok::<(Seq<char>, int), VoxErrorKind>((v, pos + string_bytes(v).len())),
{
    broadcast use vstd::utf8::encode_utf8_decode_utf8, vstd::utf8::encode_utf8_valid_utf8;
    let e = encode_utf8(v);
    let n = e.len() as u32;
    let w = string_bytes(v);
    lemma_sub_of_sub(s, pos, w, 0, 4);
    assert(w.subrange(0, 4) =~= u32_le_bytes(n));
    lemma_u32_round_trip(s, pos, n);
    lemma_sub_of_sub(s, pos, w, 4, 4 + n);
    assert(w.subrange(4, 4 + n) =~= e);
    assert(decode_utf8(e) == v);
    assert(valid_utf8(e));
}

/// Written key/value pairs read back as the same pairs.
pub proof fn lemma_pairs_round_trip(s: Seq<u8>, pos: int, d: Seq<(Seq<char>, Seq<char>)>)
    requires
        0 <= pos,
        dict_fits(d),
        pos + pairs_bytes(d).len() <= s.len(),
        s.subrange(pos, pos + pairs_bytes(d).len()) == pairs_bytes(d),
    ensures
        spec_pairs(s, pos, d.len()) == Ok::<(Seq<(Seq<char>, Seq<char>)>, int), VoxErrorKind>((d, pos + pairs_bytes(d).len())),
    decreases d.len(),
{
    if d.len() > 0 {
        let init = d.drop_last();
        let (k, v) = d.last();
        let a = pairs_bytes(init).len() as int;
        let b = string_bytes(k).len() as int;
        let c = string_bytes(v).len() as int;
        assert(pairs_bytes(d) == pairs_bytes(init) + string_bytes(k) + string_bytes(v));
        assert(dict_fits(init)) by {
            assert forall|i: int| 0 <= i < init.len() implies utf8_len(#[trigger] init[i].0) <= u32::MAX && utf8_len(init[i].1) <= u32::MAX by {
                assert(init[i] == d[i]);
            }
        }
        assert(d[d.len() - 1] == d.last());
        let w = pairs_bytes(d);
        lemma_sub_of_sub(s, pos, w, 0, a);
        assert(w.subrange(0, a) =~= pairs_bytes(init));
        lemma_pairs_round_trip(s, pos, init);
        lemma_sub_of_sub(s, pos, w, a, a + b);
        assert(w.subrange(a, a + b) =~= string_bytes(k));
        lemma_string_round_trip(s, pos + a, k);
        lemma_sub_of_sub(s, pos, w, a + b, a + b + c);
        assert(w.subrange(a + b, a + b + c) =~= string_bytes(v));
        lemma_string_round_trip(s, pos + a + b, v);
        assert(init.push((k, v)) =~= d);
    } else {
        assert(d =~= Seq::empty());
    }
}

/// A written `DICT` reads back as the same pairs, in the same order.
pub proof fn lemma_dict_round_trip(s: Seq<u8>, pos: int, d: Seq<(Seq<char>, Seq<char>)>)
    requires
        0 <= pos,
        dict_fits(d),
        pos + dict_bytes(d).len() <= s.len(),
        s.subrange(pos, pos + dict_bytes(d).len()) == dict_bytes(d),
    ensures
        spec_dict(s, pos) == Ok::<(Seq<(Seq<char>, Seq<char>)>, int), VoxErrorKind>((d, pos + dict_bytes(d).len())),
{
    reveal(dict_bytes);
    let n = pairs_bytes(d).len() as int;
    let w = dict_bytes(d);
    lemma_sub_of_sub(s, pos, w, 0, 4);
    assert(w.subrange(0, 4) =~= u32_le_bytes(d.len() as u32));
    lemma_u32_round_trip(s, pos, d.len() as u32);
    lemma_sub_of_sub(s, pos, w, 4, 4 + n);
    assert(w.subrange(4, 4 + n) =~= pairs_bytes(d));
    lemma_pairs_round_trip(s, pos + 4, d);
}

} // verus!
