//! Parsers for the format's micro-types: `STRING`, `DICT` and `ROTATION`.

use vstd::prelude::*;
use vstd::utf8::{valid_utf8, decode_utf8, encode_utf8};
use crate::data::special::MatRowCols;
use crate::parse::error::VoxErrorKind;
use crate::parse::helpers::{spec_u32, read_u32, eq_bytes};

verus! {

/// Reads a `STRING` at `pos`: a `u32` byte length, then that many UTF-8 bytes.
pub open spec fn spec_string(s: Seq<u8>, pos: int) -> Result<(Seq<char>, int), VoxErrorKind> {
    match spec_u32(s, pos) {
        Err(e) => Err(e),
        Ok((n, p)) => if p + n > s.len() {
            Err(VoxErrorKind::UnexpectedEnd)
        } else if !valid_utf8(s.subrange(p, p + n)) {
            Err(VoxErrorKind::InvalidUTF8String)
        } else {
            Ok((decode_utf8(s.subrange(p, p + n)), p + n))
        },
    }
}

/// Reads `n` key/value pairs of `STRING`s, starting at `pos`.
pub open spec fn spec_pairs(s: Seq<u8>, pos: int, n: nat) -> Result<(Seq<(Seq<char>, Seq<char>)>, int), VoxErrorKind>
    decreases n,
{
    if n == 0 {
        Ok((Seq::empty(), pos))
    } else {
        match spec_pairs(s, pos, (n - 1) as nat) {
            Err(e) => Err(e),
            Ok((ps, p)) => match spec_string(s, p) {
                Err(e) => Err(e),
                Ok((k, p1)) => match spec_string(s, p1) {
                    Err(e) => Err(e),
                    Ok((v, p2)) => Ok((ps.push((k, v)), p2)),
                },
            },
        }
    }
}

/// Reads a `DICT` at `pos`: a `u32` pair count, then that many key/value pairs.
pub open spec fn spec_dict(s: Seq<u8>, pos: int) -> Result<(Seq<(Seq<char>, Seq<char>)>, int), VoxErrorKind> {
    match spec_u32(s, pos) {
        Err(e) => Err(e),
        Ok((n, p)) => spec_pairs(s, p, n as nat),
    }
}

/// The text of each key and value of a dictionary.
pub open spec fn dict_view(d: Seq<(String, String)>) -> Seq<(Seq<char>, Seq<char>)> {
    d.map_values(|e: (String, String)| (e.0@, e.1@))
}

/// The value of the last pair whose key is `k`: a later pair overrides an
/// earlier one.
pub open spec fn dict_get(d: Seq<(Seq<char>, Seq<char>)>, k: Seq<char>) -> Option<Seq<char>>
    decreases d.len(),
{
    if d.len() == 0 {
        None
    } else if d.last().0 == k {
        Some(d.last().1)
    } else {
        dict_get(d.drop_last(), k)
    }
}

/// Relies on `std::str::from_utf8`: it accepts exactly the valid UTF-8 byte
/// sequences, and the text it gives back is the one they encode.
#[verifier::external_body]
pub(crate) fn utf8_text(b: &[u8]) -> (r: Option<String>)
    ensures
        r.is_some() == valid_utf8(b@),
        r.is_some() ==> r.unwrap()@ == decode_utf8(b@),
{
    match std::str::from_utf8(b) {
        Ok(s) => Some(s.to_owned()),
        Err(_) => None,
    }
}

/// Parses the `STRING` type at `pos`.
///
/// ```text
/// int32  : buffer size (in bytes)
/// int8xN : buffer (without the ending "\0")
/// ```
pub fn string(input: &[u8], pos: usize) -> (r: Result<(String, usize), VoxErrorKind>)
    ensures
        match r {
            Ok((v, p)) => spec_string(input@, pos as int) == Ok::<(Seq<char>, int), VoxErrorKind>((v@, p as int)),
            Err(e) => spec_string(input@, pos as int) == Err::<(Seq<char>, int), VoxErrorKind>(e),
        },
{
    let (n, p) = read_u32(input, pos)?;
    if input.len() - p < n as usize {
        return Err(VoxErrorKind::UnexpectedEnd);
    }
    let end = p + n as usize;
    let bytes = &input[p..end];
    match utf8_text(bytes) {
        Some(s) => Ok((s, end)),
        None => Err(VoxErrorKind::InvalidUTF8String),
    }
}

/// Parses the `DICT` type at `pos`. All pairs are kept, in file order; see
/// [`dict_find`] for the lookup, where a later pair overrides an earlier one.
///
/// ```text
/// int32   : num of key-value pairs
/// {
/// STRING  : key
/// STRING  : value
/// }xN
/// ```
pub fn dict(input: &[u8], pos: usize) -> (r: Result<(Vec<(String, String)>, usize), VoxErrorKind>)
    ensures
        match r {
            Ok((d, p)) => spec_dict(input@, pos as int) == Ok::<(Seq<(Seq<char>, Seq<char>)>, int), VoxErrorKind>((dict_view(d@), p as int)),
            Err(e) => spec_dict(input@, pos as int) == Err::<(Seq<(Seq<char>, Seq<char>)>, int), VoxErrorKind>(e),
        },
{
    let (n, p0) = read_u32(input, pos)?;
    let mut res: Vec<(String, String)> = Vec::new();
    let mut p = p0;
    let mut i: u32 = 0;
    assert(dict_view(res@) =~= Seq::empty());
    while i < n
        invariant
            i <= n,
            spec_u32(input@, pos as int) == Ok::<(u32, int), VoxErrorKind>((n, p0 as int)),
            spec_pairs(input@, p0 as int, i as nat) == Ok::<(Seq<(Seq<char>, Seq<char>)>, int), VoxErrorKind>((dict_view(res@), p as int)),
        decreases n - i,
    {
        let ghost before = res@;
        let k = match string(input, p) {
            Ok((k, p1)) => {
                p = p1;
                k
            },
            Err(e) => {
                proof {
                    lemma_pairs_err(input@, p0 as int, (i + 1) as nat, n as nat);
                }
                return Err(e);
            },
        };
        let v = match string(input, p) {
            Ok((v, p2)) => {
                p = p2;
                v
            },
            Err(e) => {
                proof {
                    lemma_pairs_err(input@, p0 as int, (i + 1) as nat, n as nat);
                }
                return Err(e);
            },
        };
        res.push((k, v));
        i += 1;
        assert(dict_view(res@) =~= dict_view(before).push((k@, v@)));
    }
    Ok((res, p))
}

/// Once reading pairs fails, reading more of them fails the same way.
proof fn lemma_pairs_err(s: Seq<u8>, pos: int, m: nat, m2: nat)
    requires
        m <= m2,
        spec_pairs(s, pos, m) is Err,
    ensures
        spec_pairs(s, pos, m2) == spec_pairs(s, pos, m),
    decreases m2 - m,
{
    if m < m2 {
        lemma_pairs_err(s, pos, m, (m2 - 1) as nat);
    }
}

/// Finds the value that the dictionary gives `key`: that of the last pair with
/// that key.
pub fn dict_find<'a>(d: &'a Vec<(String, String)>, key: &str) -> (r: Option<&'a String>)
    ensures
        match r {
            Some(v) => dict_get(dict_view(d@), key@) == Some(v@),
            None => dict_get(dict_view(d@), key@) is None,
        },
{
    let mut i: usize = d.len();
    assert(d@.subrange(0, i as int) =~= d@);
    while i > 0
        invariant
            i <= d@.len(),
            dict_get(dict_view(d@), key@) == dict_get(dict_view(d@.subrange(0, i as int)), key@),
        decreases i,
    {
        let k = &d[i - 1].0;
        proof {
            broadcast use vstd::utf8::encode_utf8_decode_utf8, vstd::utf8::encode_utf8_valid_utf8;
            assert(decode_utf8(encode_utf8(k@)) == k@);
            assert(decode_utf8(encode_utf8(key@)) == key@);
        }
        let same = eq_bytes(k.as_str().as_bytes(), key.as_bytes());
        let ghost pre = dict_view(d@.subrange(0, i as int));
        assert(pre.drop_last() =~= dict_view(d@.subrange(0, i - 1)));
        assert(pre.last() == (d@[i - 1].0@, d@[i - 1].1@));
        if same {
            return Some(&d[i - 1].1);
        }
        i -= 1;
    }
    assert(dict_view(d@.subrange(0, 0)).len() == 0);
    None
}

/// `true` iff `t` holds exactly the text `lit`.
pub fn text_is(t: &String, lit: &str) -> (r: bool)
    ensures
        r == (t@ == lit@),
{
    proof {
        broadcast use vstd::utf8::encode_utf8_decode_utf8, vstd::utf8::encode_utf8_valid_utf8;
        assert(decode_utf8(encode_utf8(t@)) == t@);
        assert(decode_utf8(encode_utf8(lit@)) == lit@);
    }
    eq_bytes(t.as_str().as_bytes(), lit.as_bytes())
}

/// Decodes a `ROTATION` byte: bits 0-1 give the column of row one's nonzero
/// entry, bits 2-3 that of row two (row three takes the remaining column), bits
/// 4, 5, 6 are the signs of rows one to three; bit 7 is unused. Two equal
/// columns, or a column 3, give no matrix.
pub open spec fn spec_rotation(b: u8) -> Option<MatRowCols> {
    let c1 = b % 4;
    let c2 = (b / 4) % 4;
    let n1 = (b / 16) % 2 == 1;
    let n2 = (b / 32) % 2 == 1;
    let n3 = (b / 64) % 2 == 1;
    if c1 == 0 && c2 == 1 {
        Some(MatRowCols::OneTwoThree(n1, n2, n3))
    } else if c1 == 0 && c2 == 2 {
        Some(MatRowCols::OneThreeTwo(n1, n2, n3))
    } else if c1 == 1 && c2 == 0 {
        Some(MatRowCols::TwoOneThree(n1, n2, n3))
    } else if c1 == 1 && c2 == 2 {
        Some(MatRowCols::TwoThreeOne(n1, n2, n3))
    } else if c1 == 2 && c2 == 0 {
        Some(MatRowCols::ThreeOneTwo(n1, n2, n3))
    } else if c1 == 2 && c2 == 1 {
        Some(MatRowCols::ThreeTwoOne(n1, n2, n3))
    } else {
        None
    }
}

/// Converts a `ROTATION` byte into its matrix ([`MatRowCols`]).
pub fn rotation_u8(b: u8) -> (r: Option<MatRowCols>)
    ensures
        r == spec_rotation(b),
{
    let c1 = b % 4;
    let c2 = (b / 4) % 4;
    let n1 = (b / 16) % 2 == 1;
    let n2 = (b / 32) % 2 == 1;
    let n3 = (b / 64) % 2 == 1;
    if c1 == 0 && c2 == 1 {
        Some(MatRowCols::OneTwoThree(n1, n2, n3))
    } else if c1 == 0 && c2 == 2 {
        Some(MatRowCols::OneThreeTwo(n1, n2, n3))
    } else if c1 == 1 && c2 == 0 {
        Some(MatRowCols::TwoOneThree(n1, n2, n3))
    } else if c1 == 1 && c2 == 2 {
        Some(MatRowCols::TwoThreeOne(n1, n2, n3))
    } else if c1 == 2 && c2 == 0 {
        Some(MatRowCols::ThreeOneTwo(n1, n2, n3))
    } else if c1 == 2 && c2 == 1 {
        Some(MatRowCols::ThreeTwoOne(n1, n2, n3))
    } else {
        None
    }
}

/// A `ROTATION` byte whose rows one and two name the same column decodes to
/// no matrix.
pub proof fn lemma_equal_columns_no_matrix(b: u8)
    requires
        b % 4 == (b / 4) % 4,
    ensures
        spec_rotation(b) is None,
{
}

} // verus!
