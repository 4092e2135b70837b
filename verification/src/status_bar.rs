//! Status-bar overlay layout.
//!
//! The status bar is a box in the top-left corner framing a few lines of
//! auxiliary text (scale, position, iteration count).  The text itself is
//! formatted outside the core; here the already-formatted lines are laid
//! out as overlay cells, and the buffer region that an overlay covered
//! is invalidated so the render pass re-derives the fractal content
//! beneath it.

use vstd::prelude::*;
use crate::buffer::Buffer;
use crate::pixel::Pixel;

verus! {

/// The text lines as mathematical sequences of characters.
pub open spec fn lines_view(lines: Seq<Vec<char>>) -> Seq<Seq<char>> {
    lines.map_values(|l: Vec<char>| l@)
}

/// Length of the longest text line (0 for no lines).
pub open spec fn max_line_len(lines: Seq<Seq<char>>) -> int
    decreases lines.len(),
{
    if lines.len() == 0 {
        0
    } else {
        let rest = max_line_len(lines.drop_last());
        if lines.last().len() as int > rest {
            lines.last().len() as int
        } else {
            rest
        }
    }
}

/// Overlay cells of the top and bottom box edges: a `-` above and below
/// each text column, interleaved top/bottom per column.
pub open spec fn horizontal_bar_cells(maxw: int, h: int) -> Seq<(u16, u16, char)> {
    Seq::new(
        (2 * maxw) as nat,
        |i: int|
            if i % 2 == 0 {
                (((i / 2) + 1) as u16, 0u16, '-')
            } else {
                (((i / 2) + 1) as u16, (h + 1) as u16, '-')
            },
    )
}

/// Overlay cells of the left and right box edges: a `|` on each side of
/// each text row, interleaved left/right per row.
pub open spec fn vertical_bar_cells(maxw: int, h: int) -> Seq<(u16, u16, char)> {
    Seq::new(
        (2 * h) as nat,
        |i: int|
            if i % 2 == 0 {
                (0u16, ((i / 2) + 1) as u16, '|')
            } else {
                ((maxw + 1) as u16, ((i / 2) + 1) as u16, '|')
            },
    )
}

/// Overlay cells of the `k`-th text line, one per character, starting at
/// cell `(1, k + 1)`.
pub open spec fn line_cells(k: int, line: Seq<char>) -> Seq<(u16, u16, char)> {
    Seq::new(line.len(), |x: int| ((x + 1) as u16, (k + 1) as u16, line[x]))
}

/// Overlay cells of all text lines, in order.
pub open spec fn text_cells(lines: Seq<Seq<char>>) -> Seq<(u16, u16, char)>
    decreases lines.len(),
{
    if lines.len() == 0 {
        Seq::empty()
    } else {
        text_cells(lines.drop_last()) + line_cells(lines.len() - 1, lines.last())
    }
}

/// The whole status-bar overlay: box edges, then the text lines.
pub open spec fn stat_bar_cells(lines: Seq<Seq<char>>) -> Seq<(u16, u16, char)> {
    horizontal_bar_cells(max_line_len(lines), lines.len() as int) + vertical_bar_cells(
        max_line_len(lines),
        lines.len() as int,
    ) + text_cells(lines)
}

/// No line is longer than the longest line.
proof fn lemma_max_line_len_bound(lines: Seq<Seq<char>>, k: int)
    requires
        0 <= k < lines.len(),
    ensures
        lines[k].len() as int <= max_line_len(lines),
        max_line_len(lines) >= 0,
    decreases lines.len(),
{
    if k < lines.len() - 1 {
        lemma_max_line_len_bound(lines.drop_last(), k);
        assert(lines.drop_last()[k] == lines[k]);
    } else {
        if lines.len() > 1 {
            lemma_max_line_len_bound(lines.drop_last(), 0);
        }
    }
}

/// Lays out the status-bar overlay for the given, already formatted text
/// lines: a box of `-` and `|` cells framing the lines, the text starting
/// at cell `(1, 1)`.  The overlay is returned as cells for the output
/// sink; the frame buffer itself is not touched.
pub fn render_status_bar(lines: &Vec<Vec<char>>) -> (r: Vec<(u16, u16, char)>)
    requires
        lines@.len() + 1 < 0x10000,
        max_line_len(lines_view(lines@)) + 1 < 0x10000,
    ensures
        r@ == stat_bar_cells(lines_view(lines@)),
{
    let ghost lv = lines_view(lines@);
    let h = lines.len();
    // longest line
    let mut maxw: usize = 0;
    let mut i: usize = 0;
    proof {
        assert(lv.take(0) =~= Seq::<Seq<char>>::empty());
    }
    while i < h
        invariant
            h == lines@.len(),
            lv == lines_view(lines@),
            i <= h,
            maxw as int == max_line_len(lv.take(i as int)),
        decreases h - i,
    {
        proof {
            assert(lv.take(i as int + 1).drop_last() =~= lv.take(i as int));
            assert(lv.take(i as int + 1).last() == lv[i as int]);
            assert(lv[i as int] == lines@[i as int]@);
        }
        let len_i = lines[i].len();
        if len_i > maxw {
            maxw = len_i;
        }
        i = i + 1;
    }
    proof {
        assert(lv.take(h as int) =~= lv);
    }
    let ghost mw = max_line_len(lv);
    let ghost hh = lv.len() as int;
    let mut r: Vec<(u16, u16, char)> = Vec::new();

    // top and bottom edges
    let mut c: usize = 0;
    proof {
        assert(r@ =~= horizontal_bar_cells(mw, hh).take(0));
    }
    while c < maxw
        invariant
            h == lines@.len(),
            lv == lines_view(lines@),
            mw == max_line_len(lv),
            hh == lv.len() as int,
            maxw as int == mw,
            mw + 1 < 0x10000,
            hh + 1 < 0x10000,
            c <= maxw,
            r@ == horizontal_bar_cells(mw, hh).take(2 * c as int),
        decreases maxw - c,
    {
        r.push(((c + 1) as u16, 0u16, '-'));
        r.push(((c + 1) as u16, (h + 1) as u16, '-'));
        proof {
            let ci = c as int;
            assert(horizontal_bar_cells(mw, hh)[2 * ci] == (((ci + 1)) as u16, 0u16, '-'));
            assert(horizontal_bar_cells(mw, hh)[2 * ci + 1] == (((ci + 1)) as u16, (hh + 1) as u16, '-'));
            assert(r@ =~= horizontal_bar_cells(mw, hh).take(2 * ci + 2));
        }
        c = c + 1;
    }
    proof {
        assert(horizontal_bar_cells(mw, hh).take(2 * maxw as int) =~= horizontal_bar_cells(mw, hh));
    }

    // left and right edges
    let mut row: usize = 0;
    proof {
        assert(r@ =~= horizontal_bar_cells(mw, hh) + vertical_bar_cells(mw, hh).take(0));
    }
    while row < h
        invariant
            h == lines@.len(),
            lv == lines_view(lines@),
            mw == max_line_len(lv),
            hh == lv.len() as int,
            maxw as int == mw,
            mw + 1 < 0x10000,
            hh + 1 < 0x10000,
            row <= h,
            r@ == horizontal_bar_cells(mw, hh) + vertical_bar_cells(mw, hh).take(2 * row as int),
        decreases h - row,
    {
        r.push((0u16, (row + 1) as u16, '|'));
        r.push(((maxw + 1) as u16, (row + 1) as u16, '|'));
        proof {
            let ri = row as int;
            assert(vertical_bar_cells(mw, hh)[2 * ri] == (0u16, ((ri + 1)) as u16, '|'));
            assert(vertical_bar_cells(mw, hh)[2 * ri + 1] == ((mw + 1) as u16, ((ri + 1)) as u16, '|'));
            assert(r@ =~= horizontal_bar_cells(mw, hh) + vertical_bar_cells(mw, hh).take(2 * ri + 2));
        }
        row = row + 1;
    }
    proof {
        assert(vertical_bar_cells(mw, hh).take(2 * h as int) =~= vertical_bar_cells(mw, hh));
    }

    // text rows
    let ghost edges = horizontal_bar_cells(mw, hh) + vertical_bar_cells(mw, hh);
    let mut k: usize = 0;
    proof {
        assert(text_cells(lv.take(0)) =~= Seq::<(u16, u16, char)>::empty());
        assert(r@ =~= edges + text_cells(lv.take(0)));
    }
    while k < h
        invariant
            h == lines@.len(),
            lv == lines_view(lines@),
            mw == max_line_len(lv),
            hh == lv.len() as int,
            maxw as int == mw,
            mw + 1 < 0x10000,
            hh + 1 < 0x10000,
            edges == horizontal_bar_cells(mw, hh) + vertical_bar_cells(mw, hh),
            k <= h,
            r@ == edges + text_cells(lv.take(k as int)),
        decreases h - k,
    {
        let ghost ki = k as int;
        let line_len = lines[k].len();
        proof {
            lemma_max_line_len_bound(lv, ki);
            assert(lv[ki] == lines@[ki]@);
        }
        let mut cx: usize = 0;
        proof {
            assert(line_cells(ki, lv[ki]).take(0) =~= Seq::<(u16, u16, char)>::empty());
            assert(r@ =~= edges + text_cells(lv.take(ki)) + line_cells(ki, lv[ki]).take(0));
        }
        while cx < line_len
            invariant
                h == lines@.len(),
                lv == lines_view(lines@),
                mw == max_line_len(lv),
                hh == lv.len() as int,
                mw + 1 < 0x10000,
                hh + 1 < 0x10000,
                edges == horizontal_bar_cells(mw, hh) + vertical_bar_cells(mw, hh),
                ki == k as int,
                0 <= ki < h as int,
                line_len == lines@[ki]@.len(),
                lv[ki] == lines@[ki]@,
                line_len as int <= mw,
                cx <= line_len,
                r@ == edges + text_cells(lv.take(ki)) + line_cells(ki, lv[ki]).take(cx as int),
            decreases line_len - cx,
        {
            let ch = lines[k][cx];
            r.push(((cx + 1) as u16, (k + 1) as u16, ch));
            proof {
                let xi = cx as int;
                assert(line_cells(ki, lv[ki])[xi] == ((xi + 1) as u16, (ki + 1) as u16, lv[ki][xi]));
                assert(r@ =~= edges + text_cells(lv.take(ki)) + line_cells(ki, lv[ki]).take(xi + 1));
            }
            cx = cx + 1;
        }
        proof {
            assert(line_cells(ki, lv[ki]).take(line_len as int) =~= line_cells(ki, lv[ki]));
            assert(lv.take(ki + 1).drop_last() =~= lv.take(ki));
            assert(lv.take(ki + 1).last() == lv[ki]);
            assert(text_cells(lv.take(ki + 1)) == text_cells(lv.take(ki)) + line_cells(ki, lv[ki]));
            assert(r@ =~= edges + text_cells(lv.take(ki + 1)));
        }
        k = k + 1;
    }
    proof {
        assert(lv.take(h as int) =~= lv);
        assert(r@ =~= stat_bar_cells(lv));
    }
    r
}

/// Whether one of the first `n` overlay cells covers coordinate `(x, y)`.
pub open spec fn covered_by(cells: Seq<(u16, u16, char)>, n: int, x: int, y: int) -> bool {
    exists|i: int| 0 <= i < n && (#[trigger] cells[i]).0 as int == x && cells[i].1 as int == y
}

/// Marks every buffer cell covered by a status-bar overlay back to
/// `Recompute`, so the next render pass re-derives the fractal content
/// the overlay hid.  Overlay cells outside the grid cover nothing and are
/// ignored.
pub fn clear_stat_bar(buffer: &mut Buffer<Pixel>, cells: &Vec<(u16, u16, char)>)
    requires
        old(buffer).wf(),
    ensures
        final(buffer).wf(),
        final(buffer).width() == old(buffer).width(),
        final(buffer).height() == old(buffer).height(),
        final(buffer).origin() == old(buffer).origin(),
        forall|x: int, y: int|
            0 <= x < old(buffer).width() && 0 <= y < old(buffer).height()
                ==> #[trigger] final(buffer).cell(x, y) == (if covered_by(
                    cells@,
                    cells@.len() as int,
                    x,
                    y,
                ) {
                    Pixel::Recompute
                } else {
                    old(buffer).cell(x, y)
                }),
{
    let (w, h) = buffer.dims();
    let n = cells.len();
    let mut i: usize = 0;
    while i < n
        invariant
            old(buffer).wf(),
            buffer.wf(),
            buffer.width() == old(buffer).width(),
            buffer.height() == old(buffer).height(),
            buffer.origin() == old(buffer).origin(),
            w as int == old(buffer).width(),
            h as int == old(buffer).height(),
            n == cells@.len(),
            i <= n,
            forall|x: int, y: int|
                0 <= x < old(buffer).width() && 0 <= y < old(buffer).height()
                    ==> #[trigger] buffer.cell(x, y) == (if covered_by(cells@, i as int, x, y) {
                        Pixel::Recompute
                    } else {
                        old(buffer).cell(x, y)
                    }),
        decreases n - i,
    {
        let (cx, cy, _ch) = cells[i];
        if cx < w && cy < h {
            let _ = buffer.put(Pixel::Recompute, cx, cy);
        }
        proof {
            let ii = i as int;
            assert forall|x: int, y: int|
                0 <= x < old(buffer).width() && 0 <= y < old(buffer).height()
                    implies #[trigger] buffer.cell(x, y) == (if covered_by(cells@, ii + 1, x, y) {
                    Pixel::Recompute
                } else {
                    old(buffer).cell(x, y)
                }) by {
                if x == cx as int && y == cy as int {
                    assert(covered_by(cells@, ii + 1, x, y));
                } else {
                    if covered_by(cells@, ii + 1, x, y) {
                        let j = choose|j: int|
                            0 <= j < ii + 1 && (#[trigger] cells@[j]).0 as int == x
                                && cells@[j].1 as int == y;
                        assert(j < ii);
                        assert(covered_by(cells@, ii, x, y));
                    }
                }
            }
        }
        i = i + 1;
    }
}

} // verus!
