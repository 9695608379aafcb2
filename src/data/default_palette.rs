//! The palette that a file without an `RGBA` chunk uses.

use vstd::prelude::*;

verus! {

/// The six levels of the color cube: `ff cc 99 66 33 00`.
pub open spec fn cube_level(k: int) -> u8 {
    (255 - 51 * k) as u8
}

/// The ten levels of the ramps: `ee dd bb aa 88 77 55 44 22 11`.
pub open spec fn ramp_level(k: int) -> u8 {
    (17 * (14 - k - k / 2)) as u8
}

/// Color `i` (palette index `i + 1`) of the default palette: first the
/// 6 x 6 x 6 color cube without black, blue varying fastest; then ramps of
/// ten shades of red, green, blue and gray. Alpha is always `ff`.
pub open spec fn default_color(i: int) -> (u8, u8, u8, u8) {
    if i < 215 {
        (cube_level(i / 36), cube_level((i / 6) % 6), cube_level(i % 6), 255)
    } else {
        let j = i - 215;
        let v = ramp_level(j % 10);
        if j / 10 == 0 {
            (v, 0, 0, 255)
        } else if j / 10 == 1 {
            (0, v, 0, 255)
        } else if j / 10 == 2 {
            (0, 0, v, 255)
        } else {
            (v, v, v, 255)
        }
    }
}

/// The default palette: 255 colors (see [`default_color`]).
pub fn default_palette() -> (r: Vec<(u8, u8, u8, u8)>)
    ensures
        r@.len() == 255,
        forall|i: int| 0 <= i < 255 ==> r@[i] == default_color(i),
{
    let mut r: Vec<(u8, u8, u8, u8)> = Vec::new();
    let mut i: usize = 0;
    while i < 255
        invariant
            i <= 255,
            r@.len() == i,
            forall|k: int| 0 <= k < i ==> r@[k] == default_color(k),
        decreases 255 - i,
    {
        let c = if i < 215 {
            (255 - 51 * (i / 36) as u8, 255 - 51 * ((i / 6) % 6) as u8, 255 - 51 * (i % 6) as u8, 255u8)
        } else {
            let j = i - 215;
            let k = j % 10;
            let v = 17 * (14 - k - k / 2) as u8;
            if j / 10 == 0 {
                (v, 0, 0, 255)
            } else if j / 10 == 1 {
                (0, v, 0, 255)
            } else if j / 10 == 2 {
                (0, 0, v, 255)
            } else {
                (v, v, v, 255)
            }
        };
        r.push(c);
        i += 1;
    }
    r
}

} // verus!
