//! Centered screen layout: where each line of a block of text goes on a
//! terminal of the current size. Writing at those positions is left to
//! the caller; the arithmetic here is total and never wraps.

use vstd::prelude::*;
use vstd::string::StrSliceExecFns;

verus! {

/// Where a block of the given size starts inside a dimension so as to be
/// centered: half the slack, or the origin when the block does not fit.
pub open spec fn center_start_spec(dim: int, size: int) -> int {
    if size <= dim {
        (dim - size) / 2
    } else {
        0
    }
}

/// A length capped to what a terminal coordinate can hold.
pub open spec fn capped_coord(n: int) -> int {
    if n > 65535 {
        65535
    } else {
        n
    }
}

/// The centered start coordinate, executable.
pub fn center_start(dim: u16, size: u16) -> (r: u16)
    ensures
        r as int == center_start_spec(dim as int, size as int),
{
    if size <= dim {
        (dim - size) / 2
    } else {
        0
    }
}

/// The screen position of each line of a block, centered vertically as a
/// whole and horizontally line by line (by character count): for line
/// `i`, `x` is the centered start within the width and `y` is the block's
/// centered start within the height, plus `i`.
pub fn line_positions(width: u16, height: u16, lines: &Vec<String>) -> (r: Vec<(u16, u16)>)
    requires
        lines@.len() <= height as int,
    ensures
        r@.len() == lines@.len(),
        forall|i: int|
            0 <= i < r@.len() ==> {
                &&& (#[trigger] r@[i]).0 as int == center_start_spec(
                    width as int,
                    capped_coord(lines@[i]@.len() as int),
                )
                &&& r@[i].1 as int == center_start_spec(height as int, lines@.len() as int) + i
            },
{
    let count = lines.len() as u16;
    let start_y = center_start(height, count);
    let mut r: Vec<(u16, u16)> = Vec::new();
    let mut i: usize = 0;
    while i < lines.len()
        invariant
            lines@.len() <= height as int,
            count as int == lines@.len(),
            start_y as int == center_start_spec(height as int, lines@.len() as int),
            i <= lines@.len(),
            r@.len() == i,
            forall|k: int|
                0 <= k < i ==> {
                    &&& (#[trigger] r@[k]).0 as int == center_start_spec(
                        width as int,
                        capped_coord(lines@[k]@.len() as int),
                    )
                    &&& r@[k].1 as int == center_start_spec(height as int, lines@.len() as int) + k
                },
        decreases lines@.len() - i,
    {
        let len = lines[i].as_str().unicode_len();
        let size: u16 = if len > 65535 {
            65535
        } else {
            len as u16
        };
        let x = center_start(width, size);
        let y = start_y + (i as u16);
        r.push((x, y));
        i += 1;
    }
    r
}

} // verus!
