//! Zoom-time pixel salvage.
//!
//! On a committed zoom the whole frame could be recomputed, but deep
//! interior and deep exterior regions survive a small scale change.  For
//! each new-frame cell the inverse scale mapping names a source cell of
//! the old frame; if every inspected neighbor of that source agrees on a
//! classification, the new cell reuses it, and only the boundary region —
//! where the neighborhood is mixed or still unknown — is sent back for
//! recomputation.

use vstd::prelude::*;
use crate::buffer::Buffer;
use crate::pixel::Classification;
use crate::pixel::Pixel;

verus! {

/// The fixed neighborhood inspected around a source cell: the 8 cells
/// surrounding it, in a fixed enumeration.
pub open spec fn neighbor_offset(i: int) -> (int, int) {
    if i == 0 {
        (-1, -1)
    } else if i == 1 {
        (-1, 0)
    } else if i == 2 {
        (-1, 1)
    } else if i == 3 {
        (0, 1)
    } else if i == 4 {
        (0, -1)
    } else if i == 5 {
        (1, -1)
    } else if i == 6 {
        (1, 0)
    } else {
        (1, 1)
    }
}

/// Whether the `i`-th neighbor of source cell `(ox, oy)` lies inside the
/// old frame and holds pixel state `p`.
pub open spec fn neighbor_is(old_frame: Buffer<Pixel>, ox: int, oy: int, i: int, p: Pixel) -> bool {
    let nx = ox + neighbor_offset(i).0;
    let ny = oy + neighbor_offset(i).1;
    &&& 0 <= nx < old_frame.width()
    &&& 0 <= ny < old_frame.height()
    &&& old_frame.cell(nx, ny) == p
}

/// Whether some in-range neighbor of `(ox, oy)` holds pixel state `p`.
pub open spec fn has_neighbor(old_frame: Buffer<Pixel>, ox: int, oy: int, p: Pixel) -> bool {
    exists|i: int| 0 <= i < 8 && neighbor_is(old_frame, ox, oy, i, p)
}

/// The pixel the salvage pass assigns to a new-frame cell whose source
/// cell under the inverse scale mapping is `(ox, oy)`:
/// out-of-range sources and sources with an unknown or mixed neighborhood
/// are recomputed; a unanimous neighborhood is reused.
pub open spec fn salvaged(old_frame: Buffer<Pixel>, ox: int, oy: int) -> Pixel {
    if !(0 <= ox < old_frame.width() && 0 <= oy < old_frame.height()) {
        Pixel::Recompute
    } else if has_neighbor(old_frame, ox, oy, Pixel::Recompute) {
        Pixel::Recompute
    } else if !has_neighbor(old_frame, ox, oy, Pixel::Value(Classification::Inside)) {
        Pixel::Value(Classification::Outside)
    } else if !has_neighbor(old_frame, ox, oy, Pixel::Value(Classification::Outside)) {
        Pixel::Value(Classification::Inside)
    } else {
        Pixel::Recompute
    }
}

/// Half-open range test: whether `lower <= x < upper`.
pub fn in_range(x: i64, lower: i64, upper: i64) -> (r: bool)
    ensures
        r == (lower <= x && x < upper),
{
    lower <= x && x < upper
}

/// The `i`-th neighborhood offset as executable values.
fn neighbor_offset_at(i: usize) -> (r: (i32, i32))
    requires
        i < 8,
    ensures
        (r.0 as int, r.1 as int) == neighbor_offset(i as int),
{
    if i == 0 {
        (-1, -1)
    } else if i == 1 {
        (-1, 0)
    } else if i == 2 {
        (-1, 1)
    } else if i == 3 {
        (0, 1)
    } else if i == 4 {
        (0, -1)
    } else if i == 5 {
        (1, -1)
    } else if i == 6 {
        (1, 0)
    } else {
        (1, 1)
    }
}

/// Decides one cell of the salvage pass: inspects the neighborhood of the
/// source cell `(ox, oy)` in the old frame and reuses its classification
/// only when it is unanimous and fully computed.
pub fn salvage_cell(old_frame: &Buffer<Pixel>, ox: i64, oy: i64) -> (r: Pixel)
    requires
        old_frame.wf(),
    ensures
        r == salvaged(*old_frame, ox as int, oy as int),
{
    let (w, h) = old_frame.dims();
    if !(in_range(ox, 0, w as i64) && in_range(oy, 0, h as i64)) {
        return Pixel::Recompute;
    }
    let mut found_recompute = false;
    let mut found_inside = false;
    let mut found_outside = false;
    let mut i: usize = 0;
    while i < 8
        invariant
            old_frame.wf(),
            w as int == old_frame.width(),
            h as int == old_frame.height(),
            0 <= (ox as int) && (ox as int) < old_frame.width(),
            0 <= (oy as int) && (oy as int) < old_frame.height(),
            i <= 8,
            found_recompute == exists|j: int|
                0 <= j < i as int && neighbor_is(*old_frame, ox as int, oy as int, j, Pixel::Recompute),
            found_inside == exists|j: int|
                0 <= j < i as int && neighbor_is(
                    *old_frame,
                    ox as int,
                    oy as int,
                    j,
                    Pixel::Value(Classification::Inside),
                ),
            found_outside == exists|j: int|
                0 <= j < i as int && neighbor_is(
                    *old_frame,
                    ox as int,
                    oy as int,
                    j,
                    Pixel::Value(Classification::Outside),
                ),
        decreases 8 - i,
    {
        let off = neighbor_offset_at(i);
        let nx = ox + off.0 as i64;
        let ny = oy + off.1 as i64;
        let ghost ii = i as int;
        proof {
            assert(neighbor_offset(ii).0 == off.0 as int);
            assert(neighbor_offset(ii).1 == off.1 as int);
        }
        if in_range(nx, 0, w as i64) && in_range(ny, 0, h as i64) {
            proof {
                assert forall|p: Pixel|
                    #[trigger] neighbor_is(*old_frame, ox as int, oy as int, ii, p)
                        <==> old_frame.cell(nx as int, ny as int) == p by {}
            }
            match old_frame.get(nx as u16, ny as u16) {
                Ok(Pixel::Recompute) => {
                    proof {
                        assert(neighbor_is(*old_frame, ox as int, oy as int, ii, Pixel::Recompute));
                    }
                    found_recompute = true;
                },
                Ok(Pixel::Value(Classification::Inside)) => {
                    proof {
                        assert(neighbor_is(
                            *old_frame,
                            ox as int,
                            oy as int,
                            ii,
                            Pixel::Value(Classification::Inside),
                        ));
                    }
                    found_inside = true;
                },
                Ok(Pixel::Value(Classification::Outside)) => {
                    proof {
                        assert(neighbor_is(
                            *old_frame,
                            ox as int,
                            oy as int,
                            ii,
                            Pixel::Value(Classification::Outside),
                        ));
                    }
                    found_outside = true;
                },
                Err(_) => {},
            }
        } else {
            proof {
                assert forall|p: Pixel| !neighbor_is(*old_frame, ox as int, oy as int, ii, p) by {}
            }
        }
        i = i + 1;
    }
    if found_recompute {
        Pixel::Recompute
    } else if !found_inside {
        Pixel::Value(Classification::Outside)
    } else if !found_outside {
        Pixel::Value(Classification::Inside)
    } else {
        Pixel::Recompute
    }
}

/// Rebuilds the frame buffer after a committed zoom.  `mapped` gives, for
/// each new-frame coordinate `(x, y)` — indexed `x * height + y`, the
/// column-major traversal order of the render pass — the old-frame cell
/// that the inverse scale mapping rounds it to.
pub fn salvage(old_frame: &Buffer<Pixel>, mapped: &Vec<(i64, i64)>) -> (r: Buffer<Pixel>)
    requires
        old_frame.wf(),
        mapped@.len() == old_frame.width() * old_frame.height(),
    ensures
        r.wf(),
        r.width() == old_frame.width(),
        r.height() == old_frame.height(),
        forall|x: int, y: int|
            0 <= x < old_frame.width() && 0 <= y < old_frame.height()
                ==> #[trigger] r.cell(x, y) == salvaged(
                    *old_frame,
                    mapped@[x * old_frame.height() + y].0 as int,
                    mapped@[x * old_frame.height() + y].1 as int,
                ),
{
    let (w, h) = old_frame.dims();
    let num_cells = mapped.len();
    let mut buff: Buffer<Pixel> = Buffer::new((w, h), Pixel::Recompute);
    let mut x: u16 = 0;
    while x < w
        invariant
            old_frame.wf(),
            buff.wf(),
            w as int == old_frame.width(),
            h as int == old_frame.height(),
            buff.width() == old_frame.width(),
            buff.height() == old_frame.height(),
            mapped@.len() == old_frame.width() * old_frame.height(),
            num_cells as int == mapped@.len(),
            x <= w,
            forall|xx: int, yy: int|
                0 <= xx < x as int && 0 <= yy < h as int
                    ==> #[trigger] buff.cell(xx, yy) == salvaged(
                        *old_frame,
                        mapped@[xx * old_frame.height() + yy].0 as int,
                        mapped@[xx * old_frame.height() + yy].1 as int,
                    ),
        decreases w - x,
    {
        let mut y: u16 = 0;
        while y < h
            invariant
                old_frame.wf(),
                buff.wf(),
                w as int == old_frame.width(),
                h as int == old_frame.height(),
                buff.width() == old_frame.width(),
                buff.height() == old_frame.height(),
                mapped@.len() == old_frame.width() * old_frame.height(),
                num_cells as int == mapped@.len(),
                x < w,
                y <= h,
                forall|xx: int, yy: int|
                    0 <= xx < x as int && 0 <= yy < h as int
                        ==> #[trigger] buff.cell(xx, yy) == salvaged(
                            *old_frame,
                            mapped@[xx * old_frame.height() + yy].0 as int,
                            mapped@[xx * old_frame.height() + yy].1 as int,
                        ),
                forall|yy: int|
                    0 <= yy < y as int
                        ==> #[trigger] buff.cell(x as int, yy) == salvaged(
                            *old_frame,
                            mapped@[x as int * old_frame.height() + yy].0 as int,
                            mapped@[x as int * old_frame.height() + yy].1 as int,
                        ),
            decreases h - y,
        {
            proof {
                let xi = x as int;
                let yi = y as int;
                let wi = w as int;
                let hi = h as int;
                assert(xi * hi + yi < wi * hi) by (nonlinear_arith)
                    requires
                        0 <= xi,
                        0 <= yi,
                        xi < wi,
                        yi < hi,
                ;
            }
            let idx: usize = x as usize * h as usize + y as usize;
            let src = mapped[idx];
            let px = salvage_cell(old_frame, src.0, src.1);
            let _ = buff.put(px, x, y);
            y = y + 1;
        }
        x = x + 1;
    }
    buff
}

/// The salvage heuristic never invents a classification: a cell whose
/// source neighborhood is mixed, or contains any still-unknown cell, is
/// always sent back for recomputation, never marked `Value`.
pub proof fn lemma_salvage_never_guesses(old_frame: Buffer<Pixel>, ox: int, oy: int)
    ensures
        has_neighbor(old_frame, ox, oy, Pixel::Recompute) || (has_neighbor(
            old_frame,
            ox,
            oy,
            Pixel::Value(Classification::Inside),
        ) && has_neighbor(old_frame, ox, oy, Pixel::Value(Classification::Outside)))
            ==> salvaged(old_frame, ox, oy) == Pixel::Recompute,
{
}

} // verus!
