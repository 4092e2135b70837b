//! Toroidal (wrap-around) screen buffer with a rotating origin.
//!
//! The buffer owns a `width x height` grid of cells plus a pair of origin
//! pointers.  Logical coordinate `(x, y)` maps to physical storage cell
//! `((x + col_ptr) mod width, (y + row_ptr) mod height)`, so panning is a
//! pointer rotation plus a fill of the newly revealed rows or columns,
//! never a move of the whole grid.

use vstd::prelude::*;
use crate::pixel::CoreError;

verus! {

/// Direction of a pan, and of the matching buffer shift.
#[derive(Copy, Clone, Debug, PartialEq, Eq, Structural)]
pub enum Direction {
    Left,
    Right,
    Up,
    Down,
}

/// Reduces `a` into `[0, m)` for `0 <= a < 2 * m`: the single modular step
/// that the toroidal addressing ever needs, since both summands are
/// already below `m`.
pub open spec fn wrap(a: int, m: int) -> int {
    if a < m {
        a
    } else {
        a - m
    }
}

/// A fixed-size 2D grid of cells addressed through a rotating origin.
pub struct Buffer<T> {
    /// `(width, height)` of the logical grid.
    pub size: (u16, u16),
    /// Rotating origin: `(column pointer, row pointer)`, each kept below
    /// the corresponding dimension.
    pointers: (u16, u16),
    /// Physical storage, indexed `contents[row][column]`.
    contents: Vec<Vec<T>>,
}

impl<T> Buffer<T> {
    /// Width of the logical grid.
    pub closed spec fn width(self) -> int {
        self.size.0 as int
    }

    /// Height of the logical grid.
    pub closed spec fn height(self) -> int {
        self.size.1 as int
    }

    /// The rotating origin `(column pointer, row pointer)`.
    pub closed spec fn origin(self) -> (int, int) {
        (self.pointers.0 as int, self.pointers.1 as int)
    }

    /// Well-formedness: the storage matches `size` and the origin pointers
    /// are reduced into their dimension.
    pub closed spec fn wf(self) -> bool {
        &&& self.contents@.len() == self.height()
        &&& (forall|r: int| 0 <= r < self.height() ==> (#[trigger] self.contents@[r])@.len() == self.width())
        &&& (if self.width() > 0 { self.origin().0 < self.width() } else { self.origin().0 == 0 })
        &&& (if self.height() > 0 { self.origin().1 < self.height() } else { self.origin().1 == 0 })
    }

    /// Content of logical cell `(x, y)`: the physical cell the rotating
    /// origin maps it to.  Meaningful for `0 <= x < width`, `0 <= y < height`.
    pub closed spec fn cell(self, x: int, y: int) -> T {
        self.contents@[wrap(y + self.origin().1, self.height())]@[wrap(x + self.origin().0, self.width())]
    }
}

/// Euclidean `(a + b) % m` for `a, b < m`, without overflow.
fn wrap_add(a: u16, b: u16, m: u16) -> (r: u16)
    requires
        a < m,
        b < m,
    ensures
        r as int == wrap(a as int + b as int, m as int),
{
    if a >= m - b {
        a - (m - b)
    } else {
        a + b
    }
}

/// Number of cells a shift actually moves: `times`, clamped to the
/// dimension the direction runs along (shifting further than the full
/// extent is a no-op beyond one full wrap).
pub open spec fn shift_amount(direction: Direction, times: u16, w: int, h: int) -> int {
    match direction {
        Direction::Up | Direction::Down => if times as int <= h {
            times as int
        } else {
            h
        },
        Direction::Left | Direction::Right => if times as int <= w {
            times as int
        } else {
            w
        },
    }
}

/// Whether logical cell `(x, y)` of the shifted buffer lies in the band of
/// rows or columns newly revealed by a shift of `t` cells, and therefore
/// holds the fill value.
pub open spec fn shift_reveals(direction: Direction, t: int, w: int, h: int, x: int, y: int) -> bool {
    match direction {
        Direction::Down => y < t,
        Direction::Up => y >= h - t,
        Direction::Right => x < t,
        Direction::Left => x >= w - t,
    }
}

/// The logical cell of the unshifted buffer whose content a non-revealed
/// cell `(x, y)` of the shifted buffer shows.
pub open spec fn shift_src(direction: Direction, t: int, x: int, y: int) -> (int, int) {
    match direction {
        Direction::Down => (x, y - t),
        Direction::Up => (x, y + t),
        Direction::Right => (x - t, y),
        Direction::Left => (x + t, y),
    }
}

/// Where the content of logical cell `(x, y)` of the unshifted buffer
/// lands after a shift of `t` cells: the inverse of `shift_src`.
pub open spec fn shift_dest(direction: Direction, t: int, x: int, y: int) -> (int, int) {
    match direction {
        Direction::Down => (x, y + t),
        Direction::Up => (x, y - t),
        Direction::Right => (x + t, y),
        Direction::Left => (x - t, y),
    }
}

/// The origin pointers after a shift of `t` cells.
pub open spec fn shifted_origin(o: (int, int), direction: Direction, t: int, w: int, h: int) -> (int, int) {
    match direction {
        Direction::Down => (o.0, wrap(o.1 + h - t, h)),
        Direction::Up => (o.0, wrap(o.1 + t, h)),
        Direction::Right => (wrap(o.0 + w - t, w), o.1),
        Direction::Left => (wrap(o.0 + t, w), o.1),
    }
}

/// Full effect of a shift of `t` cells (with `0 <= t <=` the dimension the
/// direction runs along): `b1` is `b0` with the origin rotated, the
/// revealed band filled, and every other cell showing its source cell.
pub open spec fn shift_rel<T>(b0: Buffer<T>, b1: Buffer<T>, direction: Direction, t: int, fill: T) -> bool {
    &&& b1.width() == b0.width()
    &&& b1.height() == b0.height()
    &&& b1.origin() == shifted_origin(b0.origin(), direction, t, b0.width(), b0.height())
    &&& forall|x: int, y: int|
        0 <= x < b0.width() && 0 <= y < b0.height()
            ==> #[trigger] b1.cell(x, y) == (if shift_reveals(direction, t, b0.width(), b0.height(), x, y) {
                fill
            } else {
                b0.cell(shift_src(direction, t, x, y).0, shift_src(direction, t, x, y).1)
            })
}

impl<T: Copy> Buffer<T> {
    /// Allocates a `size.0 x size.1` grid, every cell set to
    /// `starting_item`, with the origin at `(0, 0)`.
    pub fn new(size: (u16, u16), starting_item: T) -> (r: Buffer<T>)
        ensures
            r.wf(),
            r.width() == size.0 as int,
            r.height() == size.1 as int,
            r.origin() == (0int, 0int),
            forall|x: int, y: int|
                0 <= x < r.width() && 0 <= y < r.height() ==> r.cell(x, y) == starting_item,
    {
        let mut contents: Vec<Vec<T>> = Vec::new();
        let mut row_idx: u16 = 0;
        while row_idx < size.1
            invariant
                row_idx <= size.1,
                contents@.len() == row_idx as int,
                forall|r: int| 0 <= r < row_idx as int ==> (#[trigger] contents@[r])@.len() == size.0 as int,
                forall|r: int, c: int|
                    0 <= r < row_idx as int && 0 <= c < size.0 as int
                        ==> #[trigger] contents@[r]@[c] == starting_item,
            decreases size.1 - row_idx,
        {
            let mut row: Vec<T> = Vec::new();
            let mut col_idx: u16 = 0;
            while col_idx < size.0
                invariant
                    col_idx <= size.0,
                    row@.len() == col_idx as int,
                    forall|c: int| 0 <= c < col_idx as int ==> row@[c] == starting_item,
                decreases size.0 - col_idx,
            {
                row.push(starting_item);
                col_idx = col_idx + 1;
            }
            contents.push(row);
            row_idx = row_idx + 1;
        }
        Buffer { size, pointers: (0u16, 0u16), contents }
    }

    /// The `(width, height)` of the grid, as machine values.
    pub fn dims(&self) -> (r: (u16, u16))
        ensures
            r.0 as int == self.width(),
            r.1 as int == self.height(),
    {
        self.size
    }

    /// Reads the logical cell `(x, y)` through the modular mapping;
    /// rejects coordinates outside the grid.
    pub fn get(&self, x: u16, y: u16) -> (r: Result<T, CoreError>)
        requires
            self.wf(),
        ensures
            (x as int) < self.width() && (y as int) < self.height()
                ==> r == Ok::<T, CoreError>(self.cell(x as int, y as int)),
            !((x as int) < self.width() && (y as int) < self.height())
                ==> r == Err::<T, CoreError>(CoreError::OutOfBounds),
    {
        if x < self.size.0 && y < self.size.1 {
            let new_x = wrap_add(x, self.pointers.0, self.size.0);
            let new_y = wrap_add(y, self.pointers.1, self.size.1);
            Ok(self.contents[new_y as usize][new_x as usize])
        } else {
            Err(CoreError::OutOfBounds)
        }
    }

    /// Writes `item` directly into the physical storage cell
    /// `(x_buffer, y_buffer)`, bypassing the rotating origin.
    fn put_item(&mut self, item: T, x_buffer: u16, y_buffer: u16) -> (r: Result<(), CoreError>)
        requires
            old(self).wf(),
        ensures
            final(self).wf(),
            final(self).size == old(self).size,
            final(self).pointers == old(self).pointers,
            x_buffer < old(self).size.0 && y_buffer < old(self).size.1 ==> {
                &&& r == Ok::<(), CoreError>(())
                &&& final(self).contents@[y_buffer as int]@
                    == old(self).contents@[y_buffer as int]@.update(x_buffer as int, item)
                &&& forall|row: int|
                    0 <= row < old(self).height() && row != y_buffer as int
                        ==> final(self).contents@[row] == old(self).contents@[row]
            },
            !(x_buffer < old(self).size.0 && y_buffer < old(self).size.1) ==> {
                &&& r == Err::<(), CoreError>(CoreError::OutOfBounds)
                &&& *final(self) == *old(self)
            },
    {
        if x_buffer >= self.size.0 || y_buffer >= self.size.1 {
            return Err(CoreError::OutOfBounds);
        }
        self.contents[y_buffer as usize][x_buffer as usize] = item;
        Ok(())
    }

    /// Writes `item` at logical coordinate `(x_screen, y_screen)` through
    /// the modular mapping; rejects coordinates outside the grid.  Every
    /// other logical cell is untouched.
    pub fn put(&mut self, item: T, x_screen: u16, y_screen: u16) -> (r: Result<(), CoreError>)
        requires
            old(self).wf(),
        ensures
            final(self).wf(),
            final(self).width() == old(self).width(),
            final(self).height() == old(self).height(),
            final(self).origin() == old(self).origin(),
            (x_screen as int) < old(self).width() && (y_screen as int) < old(self).height() ==> {
                &&& r == Ok::<(), CoreError>(())
                &&& final(self).cell(x_screen as int, y_screen as int) == item
                &&& forall|x: int, y: int|
                    0 <= x < old(self).width() && 0 <= y < old(self).height()
                        && !(x == x_screen as int && y == y_screen as int)
                        ==> final(self).cell(x, y) == old(self).cell(x, y)
            },
            !((x_screen as int) < old(self).width() && (y_screen as int) < old(self).height()) ==> {
                &&& r == Err::<(), CoreError>(CoreError::OutOfBounds)
                &&& *final(self) == *old(self)
            },
    {
        if x_screen >= self.size.0 || y_screen >= self.size.1 {
            return Err(CoreError::OutOfBounds);
        }
        let new_x = wrap_add(x_screen, self.pointers.0, self.size.0);
        let new_y = wrap_add(y_screen, self.pointers.1, self.size.1);
        self.contents[new_y as usize][new_x as usize] = item;
        proof {
            assert forall|x: int, y: int|
                0 <= x < old(self).width() && 0 <= y < old(self).height()
                    && !(x == x_screen as int && y == y_screen as int)
                    implies self.cell(x, y) == old(self).cell(x, y) by {
                assert(wrap(y + old(self).origin().1, old(self).height()) == new_y as int
                    ==> y == y_screen as int);
                assert(wrap(x + old(self).origin().0, old(self).width()) == new_x as int
                    ==> x == x_screen as int);
            }
        }
        Ok(())
    }
}

impl<T: Copy> Buffer<T> {
    /// Fills the whole physical storage row `y_buffer` with `item`.
    fn fill_row(&mut self, y_buffer: u16, item: T)
        requires
            old(self).wf(),
            (y_buffer as int) < old(self).height(),
        ensures
            final(self).wf(),
            final(self).size == old(self).size,
            final(self).pointers == old(self).pointers,
            forall|r: int|
                0 <= r < old(self).height() && r != y_buffer as int
                    ==> final(self).contents@[r] == old(self).contents@[r],
            forall|c: int|
                0 <= c < old(self).width() ==> final(self).contents@[y_buffer as int]@[c] == item,
    {
        let mut x: u16 = 0;
        while x < self.size.0
            invariant
                self.wf(),
                self.size == old(self).size,
                self.pointers == old(self).pointers,
                x <= self.size.0,
                (y_buffer as int) < old(self).height(),
                forall|r: int|
                    0 <= r < old(self).height() && r != y_buffer as int
                        ==> self.contents@[r] == old(self).contents@[r],
                forall|c: int| 0 <= c < x as int ==> self.contents@[y_buffer as int]@[c] == item,
            decreases self.size.0 - x,
        {
            let _ = self.put_item(item, x, y_buffer);
            x = x + 1;
        }
    }

    /// Fills the whole physical storage column `x_buffer` with `item`.
    fn fill_col(&mut self, x_buffer: u16, item: T)
        requires
            old(self).wf(),
            (x_buffer as int) < old(self).width(),
        ensures
            final(self).wf(),
            final(self).size == old(self).size,
            final(self).pointers == old(self).pointers,
            forall|r: int|
                0 <= r < old(self).height()
                    ==> final(self).contents@[r]@
                        == old(self).contents@[r]@.update(x_buffer as int, item),
    {
        let mut y: u16 = 0;
        while y < self.size.1
            invariant
                self.wf(),
                self.size == old(self).size,
                self.pointers == old(self).pointers,
                y <= self.size.1,
                (x_buffer as int) < old(self).width(),
                forall|r: int|
                    0 <= r < y as int
                        ==> self.contents@[r]@ == old(self).contents@[r]@.update(x_buffer as int, item),
                forall|r: int|
                    y as int <= r < old(self).height() ==> self.contents@[r] == old(self).contents@[r],
            decreases self.size.1 - y,
        {
            let _ = self.put_item(item, x_buffer, y);
            y = y + 1;
        }
    }

    /// Moves the logical origin by one cell in `direction` and fills the
    /// row or column this reveals with `placeholder_item`.
    fn shift_step(&mut self, direction: Direction, placeholder_item: T)
        requires
            old(self).wf(),
            match direction {
                Direction::Up | Direction::Down => old(self).height() > 0,
                Direction::Left | Direction::Right => old(self).width() > 0,
            },
        ensures
            final(self).wf(),
            final(self).size == old(self).size,
            shift_rel(*old(self), *final(self), direction, 1, placeholder_item),
    {
        match direction {
            Direction::Down => {
                if self.pointers.1 > 0 {
                    self.pointers.1 = self.pointers.1 - 1;
                } else {
                    self.pointers.1 = self.size.1 - 1;
                }
                let y_new = self.pointers.1;
                self.fill_row(y_new, placeholder_item);
                proof {
                    let w = old(self).width();
                    let h = old(self).height();
                    let p1 = old(self).origin().1;
                    assert forall|x: int, y: int| 0 <= x < w && 0 <= y < h implies
                        #[trigger] self.cell(x, y) == (if shift_reveals(Direction::Down, 1, w, h, x, y) {
                            placeholder_item
                        } else {
                            old(self).cell(shift_src(Direction::Down, 1, x, y).0, shift_src(Direction::Down, 1, x, y).1)
                        }) by {
                        if y >= 1 {
                            assert(wrap(y + self.origin().1, h) == wrap((y - 1) + p1, h));
                            assert(wrap(y + self.origin().1, h) != self.origin().1);
                        }
                    }
                }
            },
            Direction::Up => {
                let y_old = self.pointers.1;
                self.fill_row(y_old, placeholder_item);
                if self.pointers.1 < self.size.1 - 1 {
                    self.pointers.1 = self.pointers.1 + 1;
                } else {
                    self.pointers.1 = 0;
                }
                proof {
                    let w = old(self).width();
                    let h = old(self).height();
                    let p1 = old(self).origin().1;
                    assert forall|x: int, y: int| 0 <= x < w && 0 <= y < h implies
                        #[trigger] self.cell(x, y) == (if shift_reveals(Direction::Up, 1, w, h, x, y) {
                            placeholder_item
                        } else {
                            old(self).cell(shift_src(Direction::Up, 1, x, y).0, shift_src(Direction::Up, 1, x, y).1)
                        }) by {
                        if y < h - 1 {
                            assert(wrap(y + self.origin().1, h) == wrap((y + 1) + p1, h));
                            assert(wrap(y + self.origin().1, h) != p1);
                        } else {
                            assert(wrap(y + self.origin().1, h) == p1);
                        }
                    }
                }
            },
            Direction::Right => {
                if self.pointers.0 > 0 {
                    self.pointers.0 = self.pointers.0 - 1;
                } else {
                    self.pointers.0 = self.size.0 - 1;
                }
                let x_new = self.pointers.0;
                self.fill_col(x_new, placeholder_item);
                proof {
                    let w = old(self).width();
                    let h = old(self).height();
                    let p0 = old(self).origin().0;
                    assert forall|x: int, y: int| 0 <= x < w && 0 <= y < h implies
                        #[trigger] self.cell(x, y) == (if shift_reveals(Direction::Right, 1, w, h, x, y) {
                            placeholder_item
                        } else {
                            old(self).cell(shift_src(Direction::Right, 1, x, y).0, shift_src(Direction::Right, 1, x, y).1)
                        }) by {
                        assert(wrap(y + self.origin().1, h) < h);
                        if x >= 1 {
                            assert(wrap(x + self.origin().0, w) == wrap((x - 1) + p0, w));
                            assert(wrap(x + self.origin().0, w) != self.origin().0);
                        } else {
                            assert(wrap(x + self.origin().0, w) == self.origin().0);
                        }
                    }
                }
            },
            Direction::Left => {
                let x_old = self.pointers.0;
                self.fill_col(x_old, placeholder_item);
                if self.pointers.0 < self.size.0 - 1 {
                    self.pointers.0 = self.pointers.0 + 1;
                } else {
                    self.pointers.0 = 0;
                }
                proof {
                    let w = old(self).width();
                    let h = old(self).height();
                    let p0 = old(self).origin().0;
                    assert forall|x: int, y: int| 0 <= x < w && 0 <= y < h implies
                        #[trigger] self.cell(x, y) == (if shift_reveals(Direction::Left, 1, w, h, x, y) {
                            placeholder_item
                        } else {
                            old(self).cell(shift_src(Direction::Left, 1, x, y).0, shift_src(Direction::Left, 1, x, y).1)
                        }) by {
                        assert(wrap(y + self.origin().1, h) < h);
                        if x < w - 1 {
                            assert(wrap(x + self.origin().0, w) == wrap((x + 1) + p0, w));
                            assert(wrap(x + self.origin().0, w) != p0);
                        } else {
                            assert(wrap(x + self.origin().0, w) == p0);
                        }
                    }
                }
            },
        }
    }

    /// Moves the logical origin by `times` cells in `direction`, clamped
    /// to the corresponding dimension, filling each newly revealed row or
    /// column with `placeholder_item`.  This is how panning invalidates
    /// exactly the revealed cells without touching the rest of the grid.
    pub fn shift(&mut self, direction: Direction, times: u16, placeholder_item: T)
        requires
            old(self).wf(),
        ensures
            final(self).wf(),
            shift_rel(
                *old(self),
                *final(self),
                direction,
                shift_amount(direction, times, old(self).width(), old(self).height()),
                placeholder_item,
            ),
    {
        let n: u16 = match direction {
            Direction::Up | Direction::Down => if times < self.size.1 {
                times
            } else {
                self.size.1
            },
            Direction::Left | Direction::Right => if times < self.size.0 {
                times
            } else {
                self.size.0
            },
        };
        let mut i: u16 = 0;
        while i < n
            invariant
                old(self).wf(),
                self.wf(),
                self.size == old(self).size,
                i <= n,
                n as int == shift_amount(direction, times, old(self).width(), old(self).height()),
                n as int <= (match direction {
                    Direction::Up | Direction::Down => old(self).height(),
                    Direction::Left | Direction::Right => old(self).width(),
                }),
                shift_rel(*old(self), *self, direction, i as int, placeholder_item),
            decreases n - i,
        {
            let ghost prev = *self;
            self.shift_step(direction, placeholder_item);
            proof {
                lemma_shift_rel_compose(*old(self), prev, *self, direction, i as int, placeholder_item);
            }
            i = i + 1;
        }
    }

    /// Sets every logical cell to `item`, leaving size and origin alone.
    pub fn clear(&mut self, item: T)
        requires
            old(self).wf(),
        ensures
            final(self).wf(),
            final(self).width() == old(self).width(),
            final(self).height() == old(self).height(),
            final(self).origin() == old(self).origin(),
            forall|x: int, y: int|
                0 <= x < old(self).width() && 0 <= y < old(self).height()
                    ==> final(self).cell(x, y) == item,
    {
        let mut x: u16 = 0;
        while x < self.size.0
            invariant
                self.wf(),
                self.size == old(self).size,
                self.pointers == old(self).pointers,
                x <= self.size.0,
                forall|xx: int, yy: int|
                    0 <= xx < x as int && 0 <= yy < old(self).height()
                        ==> #[trigger] self.cell(xx, yy) == item,
            decreases self.size.0 - x,
        {
            let mut y: u16 = 0;
            while y < self.size.1
                invariant
                    self.wf(),
                    self.size == old(self).size,
                    self.pointers == old(self).pointers,
                    x < self.size.0,
                    y <= self.size.1,
                    forall|xx: int, yy: int|
                        0 <= xx < x as int && 0 <= yy < old(self).height()
                            ==> #[trigger] self.cell(xx, yy) == item,
                    forall|yy: int| 0 <= yy < y as int ==> #[trigger] self.cell(x as int, yy) == item,
                decreases self.size.1 - y,
            {
                let _ = self.put(item, x, y);
                y = y + 1;
            }
            x = x + 1;
        }
    }
}

/// One more step extends a shift relation: a shift by `t` followed by a
/// shift by one cell is a shift by `t + 1`.
proof fn lemma_shift_rel_compose<T>(
    b0: Buffer<T>,
    b1: Buffer<T>,
    b2: Buffer<T>,
    direction: Direction,
    t: int,
    fill: T,
)
    requires
        b0.wf(),
        0 <= t,
        t + 1 <= (match direction {
            Direction::Up | Direction::Down => b0.height(),
            Direction::Left | Direction::Right => b0.width(),
        }),
        shift_rel(b0, b1, direction, t, fill),
        shift_rel(b1, b2, direction, 1, fill),
    ensures
        shift_rel(b0, b2, direction, t + 1, fill),
{
    let w = b0.width();
    let h = b0.height();
    match direction {
        Direction::Down => {
            assert(b2.origin() == shifted_origin(b0.origin(), direction, t + 1, w, h));
        },
        Direction::Up => {
            assert(b2.origin() == shifted_origin(b0.origin(), direction, t + 1, w, h));
        },
        Direction::Right => {
            assert(b2.origin() == shifted_origin(b0.origin(), direction, t + 1, w, h));
        },
        Direction::Left => {
            assert(b2.origin() == shifted_origin(b0.origin(), direction, t + 1, w, h));
        },
    }
    assert forall|x: int, y: int| 0 <= x < w && 0 <= y < h implies
        #[trigger] b2.cell(x, y) == (if shift_reveals(direction, t + 1, w, h, x, y) {
            fill
        } else {
            b0.cell(shift_src(direction, t + 1, x, y).0, shift_src(direction, t + 1, x, y).1)
        }) by {
        match direction {
            Direction::Down => {
                if y >= 1 {
                    assert(b1.cell(x, y - 1) == (if shift_reveals(direction, t, w, h, x, y - 1) {
                        fill
                    } else {
                        b0.cell(shift_src(direction, t, x, y - 1).0, shift_src(direction, t, x, y - 1).1)
                    }));
                }
            },
            Direction::Up => {
                if y < h - 1 {
                    assert(b1.cell(x, y + 1) == (if shift_reveals(direction, t, w, h, x, y + 1) {
                        fill
                    } else {
                        b0.cell(shift_src(direction, t, x, y + 1).0, shift_src(direction, t, x, y + 1).1)
                    }));
                }
            },
            Direction::Right => {
                if x >= 1 {
                    assert(b1.cell(x - 1, y) == (if shift_reveals(direction, t, w, h, x - 1, y) {
                        fill
                    } else {
                        b0.cell(shift_src(direction, t, x - 1, y).0, shift_src(direction, t, x - 1, y).1)
                    }));
                }
            },
            Direction::Left => {
                if x < w - 1 {
                    assert(b1.cell(x + 1, y) == (if shift_reveals(direction, t, w, h, x + 1, y) {
                        fill
                    } else {
                        b0.cell(shift_src(direction, t, x + 1, y).0, shift_src(direction, t, x + 1, y).1)
                    }));
                }
            },
        }
    }
}

/// A value that a shift does not push out of the grid moves with the
/// content: the cell `shift_dest(direction, t, x, y)` of the shifted
/// buffer shows what cell `(x, y)` held before.  Together with the
/// contracts of `put` and `get`, this says that a written value stays
/// readable, at its tracked coordinate, until a shift drops it off the
/// edge or another write overwrites it.
pub proof fn lemma_shift_tracks_cell<T>(
    b0: Buffer<T>,
    b1: Buffer<T>,
    direction: Direction,
    t: int,
    fill: T,
    x: int,
    y: int,
)
    requires
        shift_rel(b0, b1, direction, t, fill),
        0 <= t,
        0 <= x < b0.width(),
        0 <= y < b0.height(),
        0 <= shift_dest(direction, t, x, y).0 < b0.width(),
        0 <= shift_dest(direction, t, x, y).1 < b0.height(),
    ensures
        b1.cell(shift_dest(direction, t, x, y).0, shift_dest(direction, t, x, y).1) == b0.cell(x, y),
{
    let dx = shift_dest(direction, t, x, y).0;
    let dy = shift_dest(direction, t, x, y).1;
    assert(b1.cell(dx, dy) == (if shift_reveals(direction, t, b0.width(), b0.height(), dx, dy) {
        fill
    } else {
        b0.cell(shift_src(direction, t, dx, dy).0, shift_src(direction, t, dx, dy).1)
    }));
}

/// Shifting by the full extent of the dimension the direction runs along
/// restores the original logical-to-physical mapping — the origin pointers
/// come back to where they started — while every cell now holds the fill
/// value.
pub proof fn lemma_full_shift_restores_mapping<T>(b0: Buffer<T>, b1: Buffer<T>, direction: Direction, fill: T)
    requires
        b0.wf(),
        shift_rel(
            b0,
            b1,
            direction,
            (match direction {
                Direction::Up | Direction::Down => b0.height(),
                Direction::Left | Direction::Right => b0.width(),
            }),
            fill,
        ),
    ensures
        b1.origin() == b0.origin(),
        forall|x: int, y: int|
            0 <= x < b0.width() && 0 <= y < b0.height() ==> #[trigger] b1.cell(x, y) == fill,
{
}

/// Panning by `k` cells and then panning back by `k` cells restores every
/// cell that neither shift freshly filled: with `t` the clamped amount,
/// those are the cells `(x, y)` with `x + t` still inside the grid.
pub proof fn lemma_pan_round_trip<T>(b0: Buffer<T>, b1: Buffer<T>, b2: Buffer<T>, k: u16, fill: T)
    requires
        shift_rel(b0, b1, Direction::Right, shift_amount(Direction::Right, k, b0.width(), b0.height()), fill),
        shift_rel(b1, b2, Direction::Left, shift_amount(Direction::Left, k, b1.width(), b1.height()), fill),
    ensures
        forall|x: int, y: int|
            0 <= x && x + shift_amount(Direction::Right, k, b0.width(), b0.height()) < b0.width()
                && 0 <= y < b0.height() ==> #[trigger] b2.cell(x, y) == b0.cell(x, y),
{
    let w = b0.width();
    let h = b0.height();
    let t = shift_amount(Direction::Right, k, w, h);
    assert forall|x: int, y: int| 0 <= x && x + t < w && 0 <= y < h implies
        #[trigger] b2.cell(x, y) == b0.cell(x, y) by {
        assert(b2.cell(x, y) == (if shift_reveals(Direction::Left, t, w, h, x, y) {
            fill
        } else {
            b1.cell(x + t, y)
        }));
        assert(b1.cell(x + t, y) == (if shift_reveals(Direction::Right, t, w, h, x + t, y) {
            fill
        } else {
            b0.cell(x, y)
        }));
    }
}

} // verus!
