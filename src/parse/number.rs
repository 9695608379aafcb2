//! Decimal integers in attribute text (`_r`, `_t`, `_flux`).

use vstd::prelude::*;

verus! {

/// An ASCII decimal digit.
pub open spec fn is_digit(b: u8) -> bool {
    48 <= b <= 57
}

/// Every byte is a digit.
pub open spec fn all_digits(t: Seq<u8>) -> bool {
    forall|i: int| 0 <= i < t.len() ==> is_digit(#[trigger] t[i])
}

/// The value of a run of decimal digits.
pub open spec fn digits_value(t: Seq<u8>) -> nat
    decreases t.len(),
{
    if t.len() == 0 {
        0
    } else {
        digits_value(t.drop_last()) * 10 + (t.last() - 48) as nat
    }
}

/// An unsigned integer as Rust's `from_str` reads it: an optional `+`, then
/// one or more digits, whose value is at most `max`.
pub open spec fn spec_unsigned(t: Seq<u8>, max: nat) -> Option<nat> {
    let d = unsigned_digits(t);
    if d.len() > 0 && all_digits(d) && digits_value(d) <= max {
        Some(digits_value(d))
    } else {
        None
    }
}

/// The text after an optional leading `+`.
pub open spec fn unsigned_digits(t: Seq<u8>) -> Seq<u8> {
    if t.len() > 0 && t[0] == 43 { t.drop_first() } else { t }
}

/// The position after the run of digits that starts at `i`.
pub open spec fn digits_end(t: Seq<u8>, i: int) -> int
    decreases t.len() - i,
{
    if 0 <= i < t.len() && is_digit(t[i]) {
        digits_end(t, i + 1)
    } else {
        i
    }
}

/// A signed number at `pos`: an optional `-`, then all the digits that
/// follow (at least one), whose value is at most `i32::MAX`. Gives the number
/// and the position after it.
pub open spec fn spec_number(t: Seq<u8>, pos: int) -> Option<(i32, int)> {
    let neg = 0 <= pos < t.len() && t[pos] == 45;
    let start = if neg { pos + 1 } else { pos };
    let end = digits_end(t, start);
    if end == start || digits_value(t.subrange(start, end)) > i32::MAX {
        None
    } else {
        let v = digits_value(t.subrange(start, end)) as int;
        Some(((if neg { -v } else { v }) as i32, end))
    }
}

/// A translation `x y z`: three numbers, each pair separated by one space,
/// and nothing else.
pub open spec fn spec_translation(t: Seq<u8>) -> Option<(i32, i32, i32)> {
    match spec_number(t, 0) {
        None => None,
        Some((x, p1)) => if !(p1 < t.len() && t[p1] == 32) {
            None
        } else {
            match spec_number(t, p1 + 1) {
                None => None,
                Some((y, p2)) => if !(p2 < t.len() && t[p2] == 32) {
                    None
                } else {
                    match spec_number(t, p2 + 1) {
                        None => None,
                        Some((z, p3)) => if p3 == t.len() { Some((x, y, z)) } else { None },
                    }
                },
            }
        },
    }
}

/// A longer run of digits has at least the value of its prefix.
pub proof fn lemma_digits_prefix(t: Seq<u8>, i: int)
    requires
        0 <= i <= t.len(),
        all_digits(t),
    ensures
        digits_value(t) >= digits_value(t.subrange(0, i)),
    decreases t.len(),
{
    if i < t.len() {
        assert(all_digits(t.drop_last())) by {
            assert forall|k: int| 0 <= k < t.len() - 1 implies is_digit(#[trigger] t.drop_last()[k]) by {
                assert(t.drop_last()[k] == t[k]);
            }
        }
        lemma_digits_prefix(t.drop_last(), i);
        assert(t.drop_last().subrange(0, i) =~= t.subrange(0, i));
    } else {
        assert(t.subrange(0, i) =~= t);
    }
}

/// Reads digits `t[start..end]`, failing once the value exceeds `max`.
fn digits(t: &[u8], start: usize, end: usize, max: u32) -> (r: Option<u32>)
    requires
        start <= end <= t@.len(),
        all_digits(t@.subrange(start as int, end as int)),
    ensures
        match r {
            Some(v) => v == digits_value(t@.subrange(start as int, end as int)) && v <= max,
            None => digits_value(t@.subrange(start as int, end as int)) > max,
        },
{
    let mut acc: u32 = 0;
    let mut i: usize = start;
    assert(t@.subrange(start as int, start as int) =~= Seq::<u8>::empty());
    while i < end
        invariant
            start <= i <= end <= t@.len(),
            all_digits(t@.subrange(start as int, end as int)),
            acc == digits_value(t@.subrange(start as int, i as int)),
            acc <= max,
        decreases end - i,
    {
        let ghost whole = t@.subrange(start as int, end as int);
        assert(whole[i - start] == t@[i as int]);
        let d = (t[i] - 48) as u32;
        assert(t@.subrange(start as int, i + 1).drop_last() =~= t@.subrange(start as int, i as int));
        if d > max || acc > (max - d) / 10 {
            proof {
                assert(acc * 10 + d > max) by (nonlinear_arith)
                    requires
                        d > max || acc > (max - d) / 10,
                        acc >= 0,
                ;
                assert(whole.subrange(0, i + 1 - start) =~= t@.subrange(start as int, i + 1));
                lemma_digits_prefix(whole, i + 1 - start);
                assert(whole =~= t@.subrange(start as int, end as int));
            }
            return None;
        }
        proof {
            assert(acc * 10 + d <= max) by (nonlinear_arith)
                requires
                    acc <= (max - d) / 10,
                    d <= max,
            ;
        }
        acc = acc * 10 + d;
        i += 1;
    }
    Some(acc)
}

/// Parses an unsigned decimal as Rust's `from_str` does: an optional `+`,
/// then one or more digits, at most `max`.
pub fn parse_unsigned(t: &[u8], max: u32) -> (r: Option<u32>)
    ensures
        match r {
            Some(v) => spec_unsigned(t@, max as nat) == Some(v as nat),
            None => spec_unsigned(t@, max as nat) is None,
        },
{
    let start: usize = if t.len() > 0 && t[0] == 43 { 1 } else { 0 };
    let ghost d = unsigned_digits(t@);
    assert(d =~= t@.subrange(start as int, t@.len() as int));
    if start == t.len() {
        return None;
    }
    let mut i: usize = start;
    while i < t.len()
        invariant
            start <= i <= t@.len(),
            d == t@.subrange(start as int, t@.len() as int),
            d == unsigned_digits(t@),
            forall|k: int| start <= k < i ==> is_digit(#[trigger] t@[k]),
        decreases t@.len() - i,
    {
        if !(48 <= t[i] && t[i] <= 57) {
            assert(d[i - start] == t@[i as int]);
            assert(!is_digit(d[i - start]));
            assert(!all_digits(d));

            return None;
        }
        i += 1;
    }
    assert(all_digits(d)) by {
        assert forall|k: int| 0 <= k < d.len() implies is_digit(#[trigger] d[k]) by {
            assert(d[k] == t@[k + start]);
        }
    }
    digits(t, start, t.len(), max)
}

/// Parses a signed number at `pos` (see [`spec_number`]).
pub fn number(t: &[u8], pos: usize) -> (r: Option<(i32, usize)>)
    requires
        pos <= t@.len(),
    ensures
        match r {
            Some((v, p)) => spec_number(t@, pos as int) == Some((v, p as int)),
            None => spec_number(t@, pos as int) is None,
        },
{
    let neg = pos < t.len() && t[pos] == 45;
    let start = if neg { pos + 1 } else { pos };
    let mut end = start;
    while end < t.len() && 48 <= t[end] && t[end] <= 57
        invariant
            start <= end <= t@.len(),
            digits_end(t@, start as int) == digits_end(t@, end as int),
            forall|k: int| start <= k < end ==> is_digit(#[trigger] t@[k]),
        decreases t@.len() - end,
    {
        end += 1;
    }
    assert(digits_end(t@, end as int) == end);
    if end == start {
        return None;
    }
    assert(all_digits(t@.subrange(start as int, end as int))) by {
        assert forall|k: int| 0 <= k < end - start implies is_digit(#[trigger] t@.subrange(start as int, end as int)[k]) by {
            assert(t@.subrange(start as int, end as int)[k] == t@[k + start]);
        }
    }
    match digits(t, start, end, 2147483647) {
        None => None,
        Some(v) => {
            let s: i32 = if neg { -(v as i32) } else { v as i32 };
            Some((s, end))
        },
    }
}

/// Parses a translation `x y z` (see [`spec_translation`]).
pub fn translation_text(t: &[u8]) -> (r: Option<(i32, i32, i32)>)
    ensures
        r == spec_translation(t@),
{
    let (x, p1) = number(t, 0)?;
    if !(p1 < t.len() && t[p1] == 32) {
        return None;
    }
    let (y, p2) = number(t, p1 + 1)?;
    if !(p2 < t.len() && t[p2] == 32) {
        return None;
    }
    let (z, p3) = number(t, p2 + 1)?;
    if p3 != t.len() {
        return None;
    }
    Some((x, y, z))
}

} // verus!
