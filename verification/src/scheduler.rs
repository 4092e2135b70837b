//! Coordinator-side logic of the parallel render pass.
//!
//! One render pass lists every cell still marked `Recompute`, partitions
//! the work into a fixed number of contiguous chunks for the worker
//! threads, and — once every worker has finished — applies the classified
//! results back into the buffer.  The thread and channel plumbing itself
//! stays outside the core; these functions fully determine what the
//! workers are given and what the buffer holds afterwards.

use vstd::prelude::*;
use crate::buffer::Buffer;
use crate::pixel::Classification;
use crate::pixel::CoreError;
use crate::pixel::Pixel;

verus! {

/// Strict column-major order on screen coordinates: `a` is visited before
/// `b` by a scan with `x` outer and `y` inner.
pub open spec fn lex_before(a: (u16, u16), b: (u16, u16)) -> bool {
    a.0 < b.0 || (a.0 == b.0 && a.1 < b.1)
}

/// Lists every cell currently marked `Recompute`, in column-major
/// traversal order: the work items of one render pass.
pub fn collect_recompute_coords(buffer: &Buffer<Pixel>) -> (r: Vec<(u16, u16)>)
    requires
        buffer.wf(),
    ensures
        forall|i: int|
            0 <= i < r@.len() ==> {
                let c = #[trigger] r@[i];
                &&& (c.0 as int) < buffer.width()
                &&& (c.1 as int) < buffer.height()
                &&& buffer.cell(c.0 as int, c.1 as int) == Pixel::Recompute
            },
        forall|x: int, y: int|
            0 <= x < buffer.width() && 0 <= y < buffer.height()
                && #[trigger] buffer.cell(x, y) == Pixel::Recompute
                ==> r@.contains((x as u16, y as u16)),
        forall|i: int, j: int| 0 <= i < j < r@.len() ==> lex_before(#[trigger] r@[i], #[trigger] r@[j]),
{
    let (w, h) = buffer.dims();
    let mut r: Vec<(u16, u16)> = Vec::new();
    let mut x: u16 = 0;
    while x < w
        invariant
            buffer.wf(),
            w as int == buffer.width(),
            h as int == buffer.height(),
            x <= w,
            forall|i: int|
                0 <= i < r@.len() ==> {
                    let c = #[trigger] r@[i];
                    &&& (c.0 as int) < buffer.width()
                    &&& (c.1 as int) < buffer.height()
                    &&& buffer.cell(c.0 as int, c.1 as int) == Pixel::Recompute
                },
            forall|xx: int, yy: int|
                0 <= xx < x as int && 0 <= yy < h as int
                    && #[trigger] buffer.cell(xx, yy) == Pixel::Recompute
                    ==> r@.contains((xx as u16, yy as u16)),
            forall|i: int| 0 <= i < r@.len() ==> lex_before(#[trigger] r@[i], (x, 0u16)) || r@[i].0 == x,
            forall|i: int| 0 <= i < r@.len() ==> (#[trigger] r@[i]).0 < x,
            forall|i: int, j: int|
                0 <= i < j < r@.len() ==> lex_before(#[trigger] r@[i], #[trigger] r@[j]),
        decreases w - x,
    {
        let mut y: u16 = 0;
        while y < h
            invariant
                buffer.wf(),
                w as int == buffer.width(),
                h as int == buffer.height(),
                x < w,
                y <= h,
                forall|i: int|
                    0 <= i < r@.len() ==> {
                        let c = #[trigger] r@[i];
                        &&& (c.0 as int) < buffer.width()
                        &&& (c.1 as int) < buffer.height()
                        &&& buffer.cell(c.0 as int, c.1 as int) == Pixel::Recompute
                    },
                forall|xx: int, yy: int|
                    0 <= xx < x as int && 0 <= yy < h as int
                        && #[trigger] buffer.cell(xx, yy) == Pixel::Recompute
                        ==> r@.contains((xx as u16, yy as u16)),
                forall|yy: int|
                    0 <= yy < y as int && #[trigger] buffer.cell(x as int, yy) == Pixel::Recompute
                        ==> r@.contains((x as u16, yy as u16)),
                forall|i: int|
                    0 <= i < r@.len()
                        ==> (#[trigger] r@[i]).0 < x || (r@[i].0 == x && r@[i].1 < y),
                forall|i: int, j: int|
                    0 <= i < j < r@.len() ==> lex_before(#[trigger] r@[i], #[trigger] r@[j]),
            decreases h - y,
        {
            let ghost prev = r@;
            let mut is_recompute = false;
            match buffer.get(x, y) {
                Ok(Pixel::Recompute) => {
                    is_recompute = true;
                },
                _ => {},
            }
            if is_recompute {
                r.push((x, y));
            }
            proof {
                if is_recompute {
                    assert(r@ == prev.push((x, y)));
                }
                assert forall|xx: int, yy: int|
                    0 <= xx < x as int && 0 <= yy < h as int
                        && #[trigger] buffer.cell(xx, yy) == Pixel::Recompute
                        implies r@.contains((xx as u16, yy as u16)) by {
                    let k = choose|k: int| 0 <= k < prev.len() && prev[k] == (xx as u16, yy as u16);
                    assert(r@[k] == (xx as u16, yy as u16));
                }
                assert forall|yy: int|
                    0 <= yy < y as int + 1 && #[trigger] buffer.cell(x as int, yy) == Pixel::Recompute
                        implies r@.contains((x as u16, yy as u16)) by {
                    if yy < y as int {
                        let k = choose|k: int| 0 <= k < prev.len() && prev[k] == (x as u16, yy as u16);
                        assert(r@[k] == (x as u16, yy as u16));
                    } else {
                        assert(r@[r@.len() - 1] == (x as u16, yy as u16));
                    }
                }
            }
            y = y + 1;
        }
        x = x + 1;
    }
    r
}

/// Splits the work items into `n_chunks` contiguous chunks: each of the
/// first `n_chunks - 1` holds `len / n_chunks` items, and the last chunk
/// also takes the remainder.  Concatenated in order, the chunks are
/// exactly the original list.
pub fn make_chunks(items: &Vec<(u16, u16)>, n_chunks: usize) -> (r: Vec<Vec<(u16, u16)>>)
    requires
        n_chunks >= 1,
    ensures
        r@.len() == n_chunks,
        forall|i: int|
            0 <= i < n_chunks - 1
                ==> (#[trigger] r@[i])@ == items@.subrange(
                    i * (items@.len() as int / n_chunks as int),
                    (i + 1) * (items@.len() as int / n_chunks as int),
                ),
        r@[n_chunks - 1]@ == items@.subrange(
            (n_chunks - 1) * (items@.len() as int / n_chunks as int),
            items@.len() as int,
        ),
{
    let len = items.len();
    let q = len / n_chunks;
    proof {
        assert(q as int == items@.len() as int / n_chunks as int);
        assert(n_chunks as int * q as int <= len as int) by (nonlinear_arith)
            requires
                n_chunks as int >= 1,
                q as int == len as int / n_chunks as int,
                len as int >= 0,
        ;
    }
    let mut r: Vec<Vec<(u16, u16)>> = Vec::new();
    let mut c: usize = 0;
    while c < n_chunks - 1
        invariant
            n_chunks >= 1,
            len == items@.len(),
            q as int == items@.len() as int / n_chunks as int,
            n_chunks as int * q as int <= len as int,
            c <= n_chunks - 1,
            r@.len() == c as int,
            forall|i: int|
                0 <= i < c as int
                    ==> (#[trigger] r@[i])@ == items@.subrange(i * q as int, (i + 1) * q as int),
        decreases n_chunks - 1 - c,
    {
        proof {
            assert(0 <= c as int * q as int && c as int * q as int + q as int == (c as int + 1)
                * q as int && (c as int + 1) * q as int <= n_chunks as int * q as int)
                by (nonlinear_arith)
                requires
                    0 <= c as int,
                    c as int + 1 <= n_chunks as int,
                    q as int >= 0,
            ;
        }
        let start = c * q;
        let mut chunk: Vec<(u16, u16)> = Vec::new();
        proof {
            assert(chunk@ =~= items@.subrange(start as int, start as int));
        }
        let mut j: usize = 0;
        while j < q
            invariant
                len == items@.len(),
                start as int + q as int <= len as int,
                j <= q,
                chunk@ == items@.subrange(start as int, start as int + j as int),
            decreases q - j,
        {
            chunk.push(items[start + j]);
            proof {
                assert(chunk@ =~= items@.subrange(start as int, start as int + j as int + 1));
            }
            j = j + 1;
        }
        r.push(chunk);
        c = c + 1;
    }
    proof {
        assert((n_chunks as int - 1) * q as int <= n_chunks as int * q as int) by (nonlinear_arith)
            requires
                q as int >= 0,
                n_chunks as int >= 1,
        ;
        assert((n_chunks as int - 1) * q as int >= 0) by (nonlinear_arith)
            requires
                q as int >= 0,
                n_chunks as int >= 1,
        ;
    }
    let start = (n_chunks - 1) * q;
    let mut chunk: Vec<(u16, u16)> = Vec::new();
    proof {
        assert(chunk@ =~= items@.subrange(start as int, start as int));
    }
    let mut j: usize = start;
    while j < len
        invariant
            len == items@.len(),
            start <= j,
            j <= len,
            chunk@ == items@.subrange(start as int, j as int),
        decreases len - j,
    {
        chunk.push(items[j]);
        proof {
            assert(chunk@ =~= items@.subrange(start as int, j as int + 1));
        }
        j = j + 1;
    }
    r.push(chunk);
    r
}

/// The pixel that applying `results` in order leaves at `(x, y)`, given
/// the pixel `below` the cell held before: the last write wins.
pub open spec fn applied_pixel(
    results: Seq<(u16, u16, Classification)>,
    x: int,
    y: int,
    below: Pixel,
) -> Pixel
    decreases results.len(),
{
    if results.len() == 0 {
        below
    } else {
        let last = results.last();
        if last.0 as int == x && last.1 as int == y {
            Pixel::Value(last.2)
        } else {
            applied_pixel(results.drop_last(), x, y, below)
        }
    }
}

/// Drains one render pass's classified results into the buffer, one
/// `put` per `(x, y, classification)` triple, in order.  If every
/// coordinate is in bounds the call succeeds and each touched cell holds
/// the classification it was last given; an out-of-bounds coordinate
/// stops the pass at the first offender.
pub fn apply_results(
    buffer: &mut Buffer<Pixel>,
    results: &Vec<(u16, u16, Classification)>,
) -> (r: Result<(), CoreError>)
    requires
        old(buffer).wf(),
    ensures
        final(buffer).wf(),
        final(buffer).width() == old(buffer).width(),
        final(buffer).height() == old(buffer).height(),
        final(buffer).origin() == old(buffer).origin(),
        r == Ok::<(), CoreError>(()) <==> (forall|i: int|
            0 <= i < results@.len()
                ==> ((#[trigger] results@[i]).0 as int) < old(buffer).width()
                    && (results@[i].1 as int) < old(buffer).height()),
        r == Ok::<(), CoreError>(()) ==> forall|x: int, y: int|
            0 <= x < old(buffer).width() && 0 <= y < old(buffer).height()
                ==> #[trigger] final(buffer).cell(x, y) == applied_pixel(
                    results@,
                    x,
                    y,
                    old(buffer).cell(x, y),
                ),
        r != Ok::<(), CoreError>(()) ==> r == Err::<(), CoreError>(CoreError::OutOfBounds)
            && exists|k: int|
                0 <= k < results@.len()
                    && !(((#[trigger] results@[k]).0 as int) < old(buffer).width()
                        && (results@[k].1 as int) < old(buffer).height())
                    && (forall|i: int|
                        0 <= i < k
                            ==> ((#[trigger] results@[i]).0 as int) < old(buffer).width()
                                && (results@[i].1 as int) < old(buffer).height())
                    && (forall|x: int, y: int|
                        0 <= x < old(buffer).width() && 0 <= y < old(buffer).height()
                            ==> #[trigger] final(buffer).cell(x, y) == applied_pixel(
                                results@.take(k),
                                x,
                                y,
                                old(buffer).cell(x, y),
                            )),
{
    let n = results.len();
    let mut i: usize = 0;
    while i < n
        invariant
            old(buffer).wf(),
            buffer.wf(),
            buffer.width() == old(buffer).width(),
            buffer.height() == old(buffer).height(),
            buffer.origin() == old(buffer).origin(),
            n == results@.len(),
            i <= n,
            forall|k: int|
                0 <= k < i as int
                    ==> ((#[trigger] results@[k]).0 as int) < old(buffer).width()
                        && (results@[k].1 as int) < old(buffer).height(),
            forall|x: int, y: int|
                0 <= x < old(buffer).width() && 0 <= y < old(buffer).height()
                    ==> #[trigger] buffer.cell(x, y) == applied_pixel(
                        results@.take(i as int),
                        x,
                        y,
                        old(buffer).cell(x, y),
                    ),
        decreases n - i,
    {
        let (cx, cy, cls) = results[i];
        let ghost taken = results@.take(i as int);
        let res = buffer.put(Pixel::Value(cls), cx, cy);
        proof {
            assert(results@.take(i as int + 1).drop_last() =~= taken);
            assert(results@.take(i as int + 1).last() == results@[i as int]);
        }
        if let Err(e) = res {
            proof {
                let k = i as int;
                assert(!((results@[k].0 as int) < old(buffer).width()
                    && (results@[k].1 as int) < old(buffer).height()));
            }
            return Err(e);
        }
        proof {
            assert forall|x: int, y: int|
                0 <= x < old(buffer).width() && 0 <= y < old(buffer).height()
                    implies #[trigger] buffer.cell(x, y) == applied_pixel(
                        results@.take(i as int + 1),
                        x,
                        y,
                        old(buffer).cell(x, y),
                    ) by {
                if x == cx as int && y == cy as int {
                    assert(buffer.cell(x, y) == Pixel::Value(cls));
                } else {
                    assert(applied_pixel(results@.take(i as int + 1), x, y, old(buffer).cell(x, y))
                        == applied_pixel(taken, x, y, old(buffer).cell(x, y)));
                }
            }
        }
        i = i + 1;
    }
    proof {
        assert(results@.take(n as int) =~= results@);
    }
    Ok(())
}

/// Completes one render pass.  The workers were handed `n_work_items`
/// items in all, so exactly that many classified results must have come
/// back — fewer or more means a worker terminated abnormally, and the
/// pass fails with `WorkerFailure` before anything touches the buffer.
/// With the count right, the results are applied as `apply_results`
/// does.
pub fn complete_render_pass(
    buffer: &mut Buffer<Pixel>,
    n_work_items: usize,
    results: &Vec<(u16, u16, Classification)>,
) -> (r: Result<(), CoreError>)
    requires
        old(buffer).wf(),
    ensures
        final(buffer).wf(),
        final(buffer).width() == old(buffer).width(),
        final(buffer).height() == old(buffer).height(),
        final(buffer).origin() == old(buffer).origin(),
        r == Err::<(), CoreError>(CoreError::WorkerFailure) <==> results@.len() != n_work_items,
        results@.len() != n_work_items ==> *final(buffer) == *old(buffer),
        results@.len() == n_work_items ==> {
            &&& (r == Ok::<(), CoreError>(()) <==> (forall|i: int|
                0 <= i < results@.len()
                    ==> ((#[trigger] results@[i]).0 as int) < old(buffer).width()
                        && (results@[i].1 as int) < old(buffer).height()))
            &&& (r == Ok::<(), CoreError>(()) ==> forall|x: int, y: int|
                0 <= x < old(buffer).width() && 0 <= y < old(buffer).height()
                    ==> #[trigger] final(buffer).cell(x, y) == applied_pixel(
                        results@,
                        x,
                        y,
                        old(buffer).cell(x, y),
                    ))
            &&& (r != Ok::<(), CoreError>(()) ==> r == Err::<(), CoreError>(CoreError::OutOfBounds))
        },
{
    if results.len() != n_work_items {
        return Err(CoreError::WorkerFailure);
    }
    apply_results(buffer, results)
}

} // verus!
