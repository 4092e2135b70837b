//! Frame assembly: flattening a fully computed buffer for the output
//! sink.
//!
//! A frame may only be displayed once every visible cell holds a computed
//! classification; assembling a frame with any cell still `Recompute`
//! fails loudly instead of showing stale or blank content.

use vstd::prelude::*;
use crate::buffer::Buffer;
use crate::pixel::Classification;
use crate::pixel::CoreError;
use crate::pixel::Pixel;

verus! {

/// Flattens a fully computed buffer into the per-cell classifications to
/// emit, in column-major order (`x` outer, `y` inner; the entry for
/// `(x, y)` sits at index `x * height + y`).  Fails with
/// `IncompleteFrame` — yielding no partial frame — as soon as any cell is
/// still `Recompute`.
pub fn render_frame(buffer: &Buffer<Pixel>) -> (r: Result<
    Vec<(u16, u16, Classification)>,
    CoreError,
>)
    requires
        buffer.wf(),
    ensures
        r.is_err() <==> exists|x: int, y: int|
            0 <= x < buffer.width() && 0 <= y < buffer.height() && #[trigger] buffer.cell(x, y)
                == Pixel::Recompute,
        r.is_err() ==> r == Err::<Vec<(u16, u16, Classification)>, CoreError>(
            CoreError::IncompleteFrame,
        ),
        r matches Ok(v) ==> {
            &&& v@.len() == buffer.width() * buffer.height()
            &&& forall|x: int, y: int|
                0 <= x < buffer.width() && 0 <= y < buffer.height()
                    ==> (#[trigger] buffer.cell(x, y) matches Pixel::Value(c) && v@[x
                        * buffer.height() + y] == (x as u16, y as u16, c))
        },
{
    let (w, h) = buffer.dims();
    let mut v: Vec<(u16, u16, Classification)> = Vec::new();
    let mut x: u16 = 0;
    while x < w
        invariant
            buffer.wf(),
            w as int == buffer.width(),
            h as int == buffer.height(),
            x <= w,
            v@.len() == x as int * h as int,
            forall|xx: int, yy: int|
                0 <= xx < x as int && 0 <= yy < h as int
                    ==> (#[trigger] buffer.cell(xx, yy) matches Pixel::Value(c) && v@[xx * h as int
                        + yy] == (xx as u16, yy as u16, c)),
        decreases w - x,
    {
        let mut y: u16 = 0;
        while y < h
            invariant
                buffer.wf(),
                w as int == buffer.width(),
                h as int == buffer.height(),
                x < w,
                y <= h,
                v@.len() == x as int * h as int + y as int,
                forall|xx: int, yy: int|
                    0 <= xx < x as int && 0 <= yy < h as int
                        ==> (#[trigger] buffer.cell(xx, yy) matches Pixel::Value(c) && v@[xx
                            * h as int + yy] == (xx as u16, yy as u16, c)),
                forall|yy: int|
                    0 <= yy < y as int
                        ==> (#[trigger] buffer.cell(x as int, yy) matches Pixel::Value(c) && v@[
                            x as int * h as int + yy] == (x as u16, yy as u16, c)),
            decreases h - y,
        {
            match buffer.get(x, y) {
                Ok(Pixel::Value(c)) => {
                    v.push((x, y, c));
                },
                Ok(Pixel::Recompute) => {
                    return Err(CoreError::IncompleteFrame);
                },
                Err(_) => {
                    proof {
                        assert(false);
                    }
                    return Err(CoreError::IncompleteFrame);
                },
            }
            proof {
                let xi = x as int;
                let yi = y as int;
                let hi = h as int;
                assert forall|xx: int, yy: int| 0 <= xx < xi && 0 <= yy < hi implies
                    #[trigger] buffer.cell(xx, yy) matches Pixel::Value(c) && v@[xx * hi + yy] == (
                    xx as u16,
                    yy as u16,
                    c,
                ) by {
                    assert(xx * hi + yy < xi * hi) by (nonlinear_arith)
                        requires
                            0 <= xx,
                            xx < xi,
                            0 <= yy,
                            yy < hi,
                    ;
                }
            }
            y = y + 1;
        }
        proof {
            assert(x as int * h as int + h as int == (x as int + 1) * h as int) by (nonlinear_arith)
            ;
        }
        x = x + 1;
    }
    proof {
        assert(v@.len() == w as int * h as int);
        if exists|xs: int, ys: int|
            0 <= xs < buffer.width() && 0 <= ys < buffer.height() && #[trigger] buffer.cell(xs, ys)
                == Pixel::Recompute {
            let (xs, ys) = choose|xs: int, ys: int|
                0 <= xs < buffer.width() && 0 <= ys < buffer.height() && #[trigger] buffer.cell(
                    xs,
                    ys,
                ) == Pixel::Recompute;
            assert(buffer.cell(xs, ys) matches Pixel::Value(c) && v@[xs * h as int + ys] == (
                xs as u16,
                ys as u16,
                c,
            ));
            assert(false);
        }
    }
    Ok(v)
}

} // verus!
