//! Decimal text for attribute values.

use vstd::prelude::*;
use vstd::utf8::{valid_utf8, decode_utf8, encode_utf8, pop_first_scalar};
use crate::parse::special::utf8_text;
use crate::parse::number::{is_digit, all_digits, digits_value, digits_end, spec_unsigned, spec_number, spec_translation, unsigned_digits};

verus! {

/// The decimal digits of `v`, most significant first, without leading zeros.
pub open spec fn decimal_bytes(v: nat) -> Seq<u8>
    decreases v,
{
    if v < 10 {
        seq![(48 + v) as u8]
    } else {
        decimal_bytes(v / 10).push((48 + v % 10) as u8)
    }
}

/// A signed number: a `-` for negatives, then the digits of its magnitude.
pub open spec fn signed_bytes(v: i32) -> Seq<u8> {
    if v < 0 { seq![45u8] + decimal_bytes((-(v as int)) as nat) } else { decimal_bytes(v as nat) }
}

/// A translation: the three numbers separated by single spaces.
pub open spec fn translation_bytes(t: (i32, i32, i32)) -> Seq<u8> {
    signed_bytes(t.0) + seq![32u8] + signed_bytes(t.1) + seq![32u8] + signed_bytes(t.2)
}

/// Bytes below 128.
pub open spec fn is_ascii_bytes(b: Seq<u8>) -> bool {
    forall|i: int| 0 <= i < b.len() ==> #[trigger] b[i] < 128
}

/// ASCII bytes are valid UTF-8.
pub proof fn lemma_ascii_valid(b: Seq<u8>)
    requires
        is_ascii_bytes(b),
    ensures
        valid_utf8(b),
    decreases b.len(),
{
    if b.len() > 0 {
        let rest = b.subrange(1, b.len() as int);
        assert(is_ascii_bytes(rest)) by {
            assert forall|i: int| 0 <= i < rest.len() implies #[trigger] rest[i] < 128 by {
                assert(rest[i] == b[i + 1]);
            }
        }
        lemma_ascii_valid(rest);
        assert(b[0] < 128);
        assert(pop_first_scalar(b) =~= rest);
    }
}

/// Decimal digits are ASCII.
pub proof fn lemma_decimal_ascii(v: nat)
    ensures
        is_ascii_bytes(decimal_bytes(v)),
        decimal_bytes(v).len() >= 1,
    decreases v,
{
    if v >= 10 {
        lemma_decimal_ascii(v / 10);
    }
}

/// `10` to the power `k`.
pub open spec fn pow10(k: nat) -> nat
    decreases k,
{
    if k == 0 { 1 } else { 10 * pow10((k - 1) as nat) }
}

/// A number below `10^k` has at most `k` digits.
pub proof fn lemma_decimal_len(v: nat, k: nat)
    requires
        1 <= k,
        v < pow10(k),
    ensures
        decimal_bytes(v).len() <= k,
    decreases k,
{
    if v >= 10 {
        let p = pow10((k - 1) as nat);
        assert(k >= 2) by {
            if k == 1 {
                reveal_with_fuel(pow10, 2);
            }
        }
        assert(v / 10 < p) by (nonlinear_arith)
            requires
                v < 10 * p,
        ;
        lemma_decimal_len(v / 10, (k - 1) as nat);
    }
}

/// A `u32` has at most ten digits.
pub proof fn lemma_u32_digits(v: u32)
    ensures
        decimal_bytes(v as nat).len() <= 10,
{
    reveal_with_fuel(pow10, 11);
    lemma_decimal_len(v as nat, 10);
}

/// Appends the decimal digits of `v`.
pub fn push_decimal(dst: &mut Vec<u8>, v: u32)
    ensures
        final(dst)@ == old(dst)@ + decimal_bytes(v as nat),
    decreases v,
{
    if v >= 10 {
        push_decimal(dst, v / 10);
    }
    dst.push((48 + v % 10) as u8);
    assert(final(dst)@ =~= old(dst)@ + decimal_bytes(v as nat));
}

/// Appends a signed number (see [`signed_bytes`]).
pub fn push_signed(dst: &mut Vec<u8>, v: i32)
    ensures
        final(dst)@ == old(dst)@ + signed_bytes(v),
{
    if v < 0 {
        dst.push(45);
        let m: u32 = if v == i32::MIN { 2147483648 } else { (-v) as u32 };
        push_decimal(dst, m);
        assert(final(dst)@ =~= old(dst)@ + signed_bytes(v));
    } else {
        push_decimal(dst, v as u32);
    }
}

/// The text of ASCII bytes.
fn ascii_text(b: &Vec<u8>) -> (r: String)
    requires
        is_ascii_bytes(b@),
    ensures
        r@ == decode_utf8(b@),
        encode_utf8(r@) == b@,
{
    proof {
        lemma_ascii_valid(b@);
        vstd::utf8::decode_utf8_encode_utf8(b@);
    }
    match utf8_text(b.as_slice()) {
        Some(s) => s,
        None => String::new(),
    }
}

/// The decimal text of `v`.
pub fn decimal_text(v: u32) -> (r: String)
    ensures
        r@ == decode_utf8(decimal_bytes(v as nat)),
        encode_utf8(r@) == decimal_bytes(v as nat),
        encode_utf8(r@).len() <= 10,
{
    proof {
        lemma_u32_digits(v);
    }
    let mut b: Vec<u8> = Vec::new();
    push_decimal(&mut b, v);
    proof {
        lemma_decimal_ascii(v as nat);
        assert(b@ =~= decimal_bytes(v as nat));
    }
    ascii_text(&b)
}

/// The text `x y z` of a translation.
pub fn translation_string(t: (i32, i32, i32)) -> (r: String)
    ensures
        r@ == decode_utf8(translation_bytes(t)),
        encode_utf8(r@) == translation_bytes(t),
        encode_utf8(r@).len() <= 35,
{
    proof {
        let (x, y, z) = t;
        lemma_u32_digits((if x < 0 { -(x as int) } else { x as int }) as u32);
        lemma_u32_digits((if y < 0 { -(y as int) } else { y as int }) as u32);
        lemma_u32_digits((if z < 0 { -(z as int) } else { z as int }) as u32);
    }
    let mut b: Vec<u8> = Vec::new();
    push_signed(&mut b, t.0);
    b.push(32);
    push_signed(&mut b, t.1);
    b.push(32);
    push_signed(&mut b, t.2);
    proof {
        assert(b@ =~= translation_bytes(t));
        let (x, y, z) = t;
        lemma_decimal_ascii((-(x as int)) as nat);
        lemma_decimal_ascii(x as nat);
        lemma_decimal_ascii((-(y as int)) as nat);
        lemma_decimal_ascii(y as nat);
        lemma_decimal_ascii((-(z as int)) as nat);
        lemma_decimal_ascii(z as nat);
        assert(is_ascii_bytes(b@)) by {
            assert forall|i: int| 0 <= i < b@.len() implies #[trigger] b@[i] < 128 by {
                let sx = signed_bytes(x);
                let sy = signed_bytes(y);
                if i < sx.len() {
                    assert(b@[i] == sx[i]);
                } else if i == sx.len() {
                } else if i < sx.len() + 1 + sy.len() {
                    assert(b@[i] == sy[i - sx.len() - 1]);
                } else if i == sx.len() + 1 + sy.len() {
                } else {
                    assert(b@[i] == signed_bytes(z)[i - sx.len() - 2 - sy.len()]);
                }
            }
        }
    }
    ascii_text(&b)
}

/// The digits of `v` read back as `v`.
pub proof fn lemma_decimal_value(v: nat)
    ensures
        all_digits(decimal_bytes(v)),
        digits_value(decimal_bytes(v)) == v,
        decimal_bytes(v).len() >= 1,
    decreases v,
{
    let d = decimal_bytes(v);
    if v >= 10 {
        lemma_decimal_value(v / 10);
        assert(d.drop_last() =~= decimal_bytes(v / 10));
        assert(v == (v / 10) * 10 + v % 10) by (nonlinear_arith);
        assert(d.last() == (48 + v % 10) as u8);
        assert(((48 + v % 10) as u8) as int == 48 + v % 10);
        assert(digits_value(d) == digits_value(d.drop_last()) * 10 + (d.last() - 48) as nat);
        assert(digits_value(d.drop_last()) == v / 10);
        assert((d.last() - 48) as nat == v % 10);
        assert(digits_value(d) == v);
        assert forall|i: int| 0 <= i < d.len() implies is_digit(#[trigger] d[i]) by {
            if i < d.len() - 1 {
                assert(d[i] == decimal_bytes(v / 10)[i]);
            }
        }
    } else {
        assert(d.drop_last() =~= Seq::<u8>::empty());
        assert(((48 + v) as u8) as int == 48 + v);
        assert(digits_value(d) == digits_value(d.drop_last()) * 10 + (d.last() - 48) as nat);
        assert(digits_value(d) == v);
        assert(is_digit(d[0]));
    }
}

/// The digits of `v`, read as an unsigned number of at most `max`, give `v`.
pub proof fn lemma_unsigned_round_trip(v: nat, max: nat)
    requires
        v <= max,
    ensures
        spec_unsigned(decimal_bytes(v), max) == Some(v),
{
    lemma_decimal_value(v);
    assert(decimal_bytes(v)[0] != 43) by {
        assert(is_digit(decimal_bytes(v)[0]));
    }
    assert(unsigned_digits(decimal_bytes(v)) == decimal_bytes(v));
}

/// A run of digits that ends the text or is followed by a non-digit ends
/// where it ends.
proof fn lemma_digits_end(t: Seq<u8>, start: int, end: int)
    requires
        0 <= start <= end <= t.len(),
        forall|i: int| start <= i < end ==> is_digit(#[trigger] t[i]),
        end == t.len() || !is_digit(t[end]),
    ensures
        digits_end(t, start) == end,
    decreases end - start,
{
    if start < end {
        lemma_digits_end(t, start + 1, end);
    }
}

/// A signed number written at `pos`, followed by the end of the text or a
/// space, reads back as that number.
pub proof fn lemma_number_round_trip(t: Seq<u8>, pos: int, v: i32)
    requires
        v != i32::MIN,
        0 <= pos,
        pos + signed_bytes(v).len() <= t.len(),
        t.subrange(pos, pos + signed_bytes(v).len()) == signed_bytes(v),
        pos + signed_bytes(v).len() == t.len() || t[pos + signed_bytes(v).len()] == 32,
    ensures
        spec_number(t, pos) == Some((v, pos + signed_bytes(v).len())),
{
    let m: nat = if v < 0 { (-(v as int)) as nat } else { v as nat };
    let d = decimal_bytes(m);
    lemma_decimal_value(m);
    let start = if v < 0 { pos + 1 } else { pos };
    let end = start + d.len();
    assert(end == pos + signed_bytes(v).len());
    assert forall|i: int| start <= i < end implies is_digit(#[trigger] t[i]) by {
        assert(t[i] == t.subrange(pos, pos + signed_bytes(v).len())[i - pos]);
        assert(signed_bytes(v)[i - pos] == d[i - start]);
    }
    if v < 0 {
        assert(t[pos] == t.subrange(pos, pos + signed_bytes(v).len())[0]);
    } else {
        assert(t[pos] == t.subrange(pos, pos + signed_bytes(v).len())[0]);
        assert(d[0] == signed_bytes(v)[0]);
    }
    lemma_digits_end(t, start, end);
    assert(t.subrange(start, end) =~= d) by {
        assert forall|i: int| 0 <= i < d.len() implies t.subrange(start, end)[i] == d[i] by {
            assert(t[start + i] == t.subrange(pos, pos + signed_bytes(v).len())[start + i - pos]);
        }
    }
}

/// A written translation reads back as the same three numbers (none of
/// which may be `i32::MIN`, whose magnitude has no `i32`).
pub proof fn lemma_translation_round_trip(x: i32, y: i32, z: i32)
    requires
        x != i32::MIN,
        y != i32::MIN,
        z != i32::MIN,
    ensures
        spec_translation(translation_bytes((x, y, z))) == Some((x, y, z)),
{
    let t = translation_bytes((x, y, z));
    let (a, b, c) = (signed_bytes(x), signed_bytes(y), signed_bytes(z));
    let p1 = a.len() as int;
    let p2 = p1 + 1 + b.len();
    assert(t.subrange(0, p1) =~= a);
    assert(t[p1] == 32);
    lemma_number_round_trip(t, 0, x);
    assert(t.subrange(p1 + 1, p2) =~= b);
    assert(t[p2] == 32);
    lemma_number_round_trip(t, p1 + 1, y);
    assert(t.subrange(p2 + 1, t.len() as int) =~= c);
    lemma_number_round_trip(t, p2 + 1, z);
}

/// The text of ASCII bytes encodes back to those bytes.
pub proof fn lemma_ascii_text(b: Seq<u8>)
    requires
        is_ascii_bytes(b),
    ensures
        encode_utf8(decode_utf8(b)) == b,
{
    lemma_ascii_valid(b);
    vstd::utf8::decode_utf8_encode_utf8(b);
}

/// A signed number is ASCII, of at most eleven bytes.
pub proof fn lemma_signed_ascii(v: i32)
    ensures
        is_ascii_bytes(signed_bytes(v)),
        signed_bytes(v).len() <= 11,
{
    let m: nat = if v < 0 { (-(v as int)) as nat } else { v as nat };
    lemma_decimal_ascii(m);
    lemma_u32_digits(m as u32);
    if v < 0 {
        let s = signed_bytes(v);
        assert forall|i: int| 0 <= i < s.len() implies #[trigger] s[i] < 128 by {
            if i > 0 {
                assert(s[i] == decimal_bytes(m)[i - 1]);
            }
        }
    }
}

/// A translation's text is ASCII, of at most 35 bytes.
pub proof fn lemma_translation_ascii(t: (i32, i32, i32))
    ensures
        is_ascii_bytes(translation_bytes(t)),
        translation_bytes(t).len() <= 35,
{
    let (x, y, z) = t;
    lemma_signed_ascii(x);
    lemma_signed_ascii(y);
    lemma_signed_ascii(z);
    let b = translation_bytes(t);
    let (sx, sy, sz) = (signed_bytes(x), signed_bytes(y), signed_bytes(z));
    assert forall|i: int| 0 <= i < b.len() implies #[trigger] b[i] < 128 by {
        if i < sx.len() {
            assert(b[i] == sx[i]);
        } else if i == sx.len() {
        } else if i < sx.len() + 1 + sy.len() {
            assert(b[i] == sy[i - sx.len() - 1]);
        } else if i == sx.len() + 1 + sy.len() {
        } else {
            assert(b[i] == sz[i - sx.len() - 2 - sy.len()]);
        }
    }
}

} // verus!
