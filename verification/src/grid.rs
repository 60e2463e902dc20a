use vstd::prelude::*;

verus! {

/// A dynamically growable two-dimensional sparse grid keyed by signed
/// coordinates.
///
/// The grid owns a rectangular window of `Option<T>` cells together with an
/// offset; its bounds are `[offset, offset + size)` on each axis and grow
/// monotonically as writes land outside the current window.  A coordinate
/// outside the window and a coordinate inside the window holding `None` are
/// the same observable state: empty.
pub struct Grid<T> {
    rows: Vec<Vec<Option<T>>>,
    columns: usize,
    off_x: isize,
    off_y: isize,
}

impl<T> Grid<T> {
    /// The structural invariant: at least one row and one column, all rows of
    /// equal width, and bounds that stay representable as `isize` coordinates.
    pub closed spec fn wf(&self) -> bool {
        &&& self.rows@.len() >= 1
        &&& self.columns >= 1
        &&& (forall|i: int|
            0 <= i < self.rows@.len() ==> (#[trigger] self.rows@[i])@.len() == self.columns as int)
        &&& self.off_x as int + self.columns as int <= isize::MAX as int + 1
        &&& self.off_y as int + self.rows@.len() as int <= isize::MAX as int + 1
    }

    /// The smallest coordinate of the window, per axis.
    pub closed spec fn spec_min(&self) -> (int, int) {
        (self.off_x as int, self.off_y as int)
    }

    /// The largest coordinate of the window, per axis (inclusive).
    pub closed spec fn spec_max(&self) -> (int, int) {
        (
            self.off_x as int + self.columns as int - 1,
            self.off_y as int + self.rows@.len() as int - 1,
        )
    }

    pub open spec fn spec_in_bounds(&self, x: int, y: int) -> bool {
        &&& self.spec_min().0 <= x <= self.spec_max().0
        &&& self.spec_min().1 <= y <= self.spec_max().1
    }

    /// The value stored at an absolute coordinate; coordinates outside the
    /// window read as `None`.
    pub closed spec fn spec_get(&self, x: int, y: int) -> Option<T> {
        if self.spec_in_bounds(x, y) {
            self.rows@[y - self.off_y as int]@[x - self.off_x as int]
        } else {
            None
        }
    }

    /// The window's bounds are ordered.
    pub proof fn lemma_bounds_ordered(&self)
        requires
            self.wf(),
        ensures
            self.spec_min().0 <= self.spec_max().0,
            self.spec_min().1 <= self.spec_max().1,
    {
    }

    /// A stored value's coordinate always lies within the window bounds.
    pub proof fn lemma_get_in_bounds(&self, x: int, y: int)
        ensures
            self.spec_get(x, y) is Some ==> self.spec_in_bounds(x, y),
    {
    }

    /// Creates a new empty grid, with a one-cell window at the origin.
    pub fn new() -> (r: Self)
        ensures
            r.wf(),
            r.spec_min() == (0int, 0int),
            r.spec_max() == (0int, 0int),
            forall|x: int, y: int| r.spec_get(x, y) is None,
    {
        Grid { rows: unit(), columns: 1, off_x: 0, off_y: 0 }
    }

    /// Creates a new empty grid with a specific offset.
    pub fn with_offset(x: isize, y: isize) -> (r: Self)
        ensures
            r.wf(),
            r.spec_min() == (x as int, y as int),
            r.spec_max() == (x as int, y as int),
            forall|px: int, py: int| r.spec_get(px, py) is None,
    {
        Grid { rows: unit(), columns: 1, off_x: x, off_y: y }
    }

    /// Gets a value from the grid.
    pub fn get(&self, pos: [isize; 2]) -> (r: Option<&T>)
        requires
            self.wf(),
        ensures
            match r {
                Some(v) => self.spec_get(pos[0] as int, pos[1] as int) == Some(*v),
                None => self.spec_get(pos[0] as int, pos[1] as int) is None,
            },
    {
        let x = pos[0] as i128 - self.off_x as i128;
        let y = pos[1] as i128 - self.off_y as i128;
        if x < 0 || y < 0 || x >= self.columns as i128 || y >= self.rows.len() as i128 {
            return None;
        }
        let xi = x as usize;
        let yi = y as usize;
        match &self.rows[yi][xi] {
            Some(v) => Some(v),
            None => None,
        }
    }

    /// Whether the grid holds a value at the given position.
    pub fn contains(&self, pos: [isize; 2]) -> (r: bool)
        requires
            self.wf(),
        ensures
            r == (self.spec_get(pos[0] as int, pos[1] as int) is Some),
    {
        self.get(pos).is_some()
    }

    /// Places a value into the grid; returns true if the position was within
    /// the current bounds (otherwise the grid is unchanged).
    pub fn put(&mut self, pos: [isize; 2], value: T) -> (r: bool)
        requires
            old(self).wf(),
        ensures
            final(self).wf(),
            r == old(self).spec_in_bounds(pos[0] as int, pos[1] as int),
            final(self).spec_min() == old(self).spec_min(),
            final(self).spec_max() == old(self).spec_max(),
            r ==> final(self).spec_get(pos[0] as int, pos[1] as int) == Some(value),
            !r ==> final(self).spec_get(pos[0] as int, pos[1] as int) == old(self).spec_get(
                pos[0] as int,
                pos[1] as int,
            ),
            forall|x: int, y: int|
                !(x == pos[0] as int && y == pos[1] as int) ==> final(self).spec_get(x, y) == old(
                    self,
                ).spec_get(x, y),
    {
        let x = pos[0] as i128 - self.off_x as i128;
        let y = pos[1] as i128 - self.off_y as i128;
        if x < 0 || y < 0 || x >= self.columns as i128 || y >= self.rows.len() as i128 {
            return false;
        }
        let xi = x as usize;
        let yi = y as usize;
        self.rows[yi][xi] = Some(value);
        true
    }

    /// Removes and returns the value at the given position, if any.
    pub fn remove(&mut self, pos: [isize; 2]) -> (r: Option<T>)
        requires
            old(self).wf(),
        ensures
            final(self).wf(),
            final(self).spec_min() == old(self).spec_min(),
            final(self).spec_max() == old(self).spec_max(),
            r == old(self).spec_get(pos[0] as int, pos[1] as int),
            final(self).spec_get(pos[0] as int, pos[1] as int) is None,
            forall|x: int, y: int|
                !(x == pos[0] as int && y == pos[1] as int) ==> final(self).spec_get(x, y) == old(
                    self,
                ).spec_get(x, y),
    {
        let x = pos[0] as i128 - self.off_x as i128;
        let y = pos[1] as i128 - self.off_y as i128;
        if x < 0 || y < 0 || x >= self.columns as i128 || y >= self.rows.len() as i128 {
            return None;
        }
        let xi = x as usize;
        let yi = y as usize;
        self.rows[yi][xi].take()
    }

    /// The smallest coordinate of the window, per axis.
    pub fn min(&self) -> (r: [isize; 2])
        requires
            self.wf(),
        ensures
            r[0] as int == self.spec_min().0,
            r[1] as int == self.spec_min().1,
    {
        [self.off_x, self.off_y]
    }

    /// The largest coordinate of the window, per axis (inclusive).
    pub fn max(&self) -> (r: [isize; 2])
        requires
            self.wf(),
        ensures
            r[0] as int == self.spec_max().0,
            r[1] as int == self.spec_max().1,
    {
        let mx = self.off_x as i128 + self.columns as i128 - 1;
        let my = self.off_y as i128 + self.rows.len() as i128 - 1;
        [mx as isize, my as isize]
    }

    /// Returns the (width, height) of the underlying window.
    pub fn size(&self) -> (r: (usize, usize))
        requires
            self.wf(),
        ensures
            r.0 as int == self.spec_max().0 - self.spec_min().0 + 1,
            r.1 as int == self.spec_max().1 - self.spec_min().1 + 1,
    {
        (self.width(), self.height())
    }

    /// Returns the width of the underlying window.
    pub fn width(&self) -> (r: usize)
        requires
            self.wf(),
        ensures
            r as int == self.spec_max().0 - self.spec_min().0 + 1,
    {
        self.columns
    }

    /// Returns the height of the underlying window.
    pub fn height(&self) -> (r: usize)
        requires
            self.wf(),
        ensures
            r as int == self.spec_max().1 - self.spec_min().1 + 1,
    {
        self.rows.len()
    }

    /// Adds a new row at the high-`y` edge of the window.
    pub fn push_rows_back(&mut self)
        requires
            old(self).wf(),
            old(self).spec_max().1 < isize::MAX as int,
            old(self).spec_max().1 - old(self).spec_min().1 + 1 < usize::MAX as int,
        ensures
            final(self).wf(),
            final(self).spec_min() == old(self).spec_min(),
            final(self).spec_max().0 == old(self).spec_max().0,
            final(self).spec_max().1 == old(self).spec_max().1 + 1,
            forall|x: int, y: int| final(self).spec_get(x, y) == old(self).spec_get(x, y),
    {
        let row = empty_row(self.columns);
        self.rows.push(row);
        proof {
            assert forall|x: int, y: int| final(self).spec_get(x, y) == old(self).spec_get(x, y) by {
                if old(self).spec_in_bounds(x, y) {
                    assert(self.rows@[y - self.off_y as int] == old(self).rows@[y
                        - self.off_y as int]);
                }
            }
        }
    }

    /// Adds a new row at the low-`y` edge of the window.
    pub fn push_rows_front(&mut self)
        requires
            old(self).wf(),
            old(self).spec_min().1 > isize::MIN as int,
            old(self).spec_max().1 - old(self).spec_min().1 + 1 < usize::MAX as int,
        ensures
            final(self).wf(),
            final(self).spec_min().0 == old(self).spec_min().0,
            final(self).spec_min().1 == old(self).spec_min().1 - 1,
            final(self).spec_max() == old(self).spec_max(),
            forall|x: int, y: int| final(self).spec_get(x, y) == old(self).spec_get(x, y),
    {
        let row = empty_row(self.columns);
        self.rows.insert(0, row);
        self.off_y = self.off_y - 1;
        proof {
            assert forall|x: int, y: int| final(self).spec_get(x, y) == old(self).spec_get(x, y) by {
                if old(self).spec_in_bounds(x, y) {
                    assert(self.rows@[y - self.off_y as int] == old(self).rows@[y - (self.off_y
                        + 1) as int]);
                }
            }
        }
    }

    /// Adds a new column at the high-`x` edge of the window.
    pub fn push_columns_back(&mut self)
        requires
            old(self).wf(),
            old(self).spec_max().0 < isize::MAX as int,
            old(self).spec_max().0 - old(self).spec_min().0 + 1 < usize::MAX as int,
        ensures
            final(self).wf(),
            final(self).spec_min() == old(self).spec_min(),
            final(self).spec_max().0 == old(self).spec_max().0 + 1,
            final(self).spec_max().1 == old(self).spec_max().1,
            forall|x: int, y: int| final(self).spec_get(x, y) == old(self).spec_get(x, y),
    {
        let n = self.rows.len();
        let mut i: usize = 0;
        while i < n
            invariant
                n == self.rows@.len(),
                i <= n,
                self.columns == old(self).columns,
                self.off_x == old(self).off_x,
                self.off_y == old(self).off_y,
                old(self).wf(),
                old(self).spec_max().0 < isize::MAX as int,
                forall|j: int|
                    0 <= j < i ==> (#[trigger] self.rows@[j])@.len() == self.columns as int + 1,
                forall|j: int|
                    i <= j < n ==> (#[trigger] self.rows@[j])@.len() == self.columns as int,
                forall|j: int, k: int|
                    0 <= j < n && 0 <= k < self.columns as int ==> (#[trigger] self.rows@[j]@[k])
                        == old(self).rows@[j]@[k],
                forall|j: int|
                    0 <= j < i ==> #[trigger] self.rows@[j]@[self.columns as int] is None,
            decreases n - i,
        {
            self.rows[i].push(None);
            i = i + 1;
        }
        self.columns = self.columns + 1;
        proof {
            assert forall|x: int, y: int| final(self).spec_get(x, y) == old(self).spec_get(x, y) by {
                if old(self).spec_in_bounds(x, y) {
                } else if final(self).spec_in_bounds(x, y) {
                    assert(x == old(self).spec_max().0 + 1);
                }
            }
        }
    }

    /// Adds a new column at the low-`x` edge of the window.
    pub fn push_columns_front(&mut self)
        requires
            old(self).wf(),
            old(self).spec_min().0 > isize::MIN as int,
            old(self).spec_max().0 - old(self).spec_min().0 + 1 < usize::MAX as int,
        ensures
            final(self).wf(),
            final(self).spec_min().0 == old(self).spec_min().0 - 1,
            final(self).spec_min().1 == old(self).spec_min().1,
            final(self).spec_max() == old(self).spec_max(),
            forall|x: int, y: int| final(self).spec_get(x, y) == old(self).spec_get(x, y),
    {
        let n = self.rows.len();
        let mut i: usize = 0;
        while i < n
            invariant
                n == self.rows@.len(),
                i <= n,
                self.columns == old(self).columns,
                self.off_x == old(self).off_x,
                self.off_y == old(self).off_y,
                old(self).wf(),
                old(self).spec_min().0 > isize::MIN as int,
                forall|j: int|
                    0 <= j < i ==> (#[trigger] self.rows@[j])@.len() == self.columns as int + 1,
                forall|j: int|
                    i <= j < n ==> (#[trigger] self.rows@[j])@.len() == self.columns as int,
                forall|j: int, k: int|
                    0 <= j < i && 1 <= k < self.columns as int + 1 ==> (#[trigger] self.rows@[j]@[k])
                        == old(self).rows@[j]@[k - 1],
                forall|j: int, k: int|
                    i <= j < n && 0 <= k < self.columns as int ==> (#[trigger] self.rows@[j]@[k])
                        == old(self).rows@[j]@[k],
                forall|j: int| 0 <= j < i ==> #[trigger] self.rows@[j]@[0] is None,
            decreases n - i,
        {
            self.rows[i].insert(0, None);
            i = i + 1;
        }
        self.columns = self.columns + 1;
        self.off_x = self.off_x - 1;
        proof {
            assert forall|x: int, y: int| final(self).spec_get(x, y) == old(self).spec_get(x, y) by {
                if old(self).spec_in_bounds(x, y) {
                    assert(final(self).rows@[y - self.off_y as int]@[x - self.off_x as int] == old(
                        self,
                    ).rows@[y - self.off_y as int]@[x - self.off_x as int - 1]);
                } else if final(self).spec_in_bounds(x, y) {
                    assert(x == old(self).spec_min().0 - 1);
                }
            }
        }
    }

    /// Expands the window so that it contains the given position; existing
    /// contents and already-covered bounds are preserved.
    pub fn expand_to_include(&mut self, pos: [isize; 2])
        requires
            old(self).wf(),
            vstd::math::max(old(self).spec_max().0, pos[0] as int) - vstd::math::min(
                old(self).spec_min().0,
                pos[0] as int,
            ) < usize::MAX as int,
            vstd::math::max(old(self).spec_max().1, pos[1] as int) - vstd::math::min(
                old(self).spec_min().1,
                pos[1] as int,
            ) < usize::MAX as int,
        ensures
            final(self).wf(),
            final(self).spec_min().0 == vstd::math::min(old(self).spec_min().0, pos[0] as int),
            final(self).spec_min().1 == vstd::math::min(old(self).spec_min().1, pos[1] as int),
            final(self).spec_max().0 == vstd::math::max(old(self).spec_max().0, pos[0] as int),
            final(self).spec_max().1 == vstd::math::max(old(self).spec_max().1, pos[1] as int),
            forall|x: int, y: int| final(self).spec_get(x, y) == old(self).spec_get(x, y),
    {
        while (pos[0] as i128) < self.off_x as i128
            invariant
                self.wf(),
                vstd::math::max(old(self).spec_max().0, pos[0] as int) - vstd::math::min(
                    old(self).spec_min().0,
                    pos[0] as int,
                ) < usize::MAX as int,
                self.spec_min().0 >= vstd::math::min(old(self).spec_min().0, pos[0] as int),
                self.spec_min().0 <= old(self).spec_min().0,
                self.spec_min().1 == old(self).spec_min().1,
                self.spec_max() == old(self).spec_max(),
                forall|x: int, y: int| self.spec_get(x, y) == old(self).spec_get(x, y),
            decreases self.off_x as int - pos[0] as int,
        {
            self.push_columns_front();
        }
        while (pos[0] as i128) > self.off_x as i128 + self.columns as i128 - 1
            invariant
                self.wf(),
                vstd::math::max(old(self).spec_max().0, pos[0] as int) - vstd::math::min(
                    old(self).spec_min().0,
                    pos[0] as int,
                ) < usize::MAX as int,
                self.spec_min().0 == vstd::math::min(old(self).spec_min().0, pos[0] as int),
                self.spec_min().1 == old(self).spec_min().1,
                self.spec_max().0 <= vstd::math::max(old(self).spec_max().0, pos[0] as int),
                self.spec_max().0 >= old(self).spec_max().0,
                self.spec_max().1 == old(self).spec_max().1,
                forall|x: int, y: int| self.spec_get(x, y) == old(self).spec_get(x, y),
            decreases pos[0] as int - self.spec_max().0,
        {
            self.push_columns_back();
        }
        while (pos[1] as i128) < self.off_y as i128
            invariant
                self.wf(),
                vstd::math::max(old(self).spec_max().1, pos[1] as int) - vstd::math::min(
                    old(self).spec_min().1,
                    pos[1] as int,
                ) < usize::MAX as int,
                self.spec_min().0 == vstd::math::min(old(self).spec_min().0, pos[0] as int),
                self.spec_min().1 >= vstd::math::min(old(self).spec_min().1, pos[1] as int),
                self.spec_min().1 <= old(self).spec_min().1,
                self.spec_max().0 == vstd::math::max(old(self).spec_max().0, pos[0] as int),
                self.spec_max().1 == old(self).spec_max().1,
                forall|x: int, y: int| self.spec_get(x, y) == old(self).spec_get(x, y),
            decreases self.off_y as int - pos[1] as int,
        {
            self.push_rows_front();
        }
        while (pos[1] as i128) > self.off_y as i128 + self.rows.len() as i128 - 1
            invariant
                self.wf(),
                vstd::math::max(old(self).spec_max().1, pos[1] as int) - vstd::math::min(
                    old(self).spec_min().1,
                    pos[1] as int,
                ) < usize::MAX as int,
                self.spec_min().0 == vstd::math::min(old(self).spec_min().0, pos[0] as int),
                self.spec_min().1 == vstd::math::min(old(self).spec_min().1, pos[1] as int),
                self.spec_max().0 == vstd::math::max(old(self).spec_max().0, pos[0] as int),
                self.spec_max().1 <= vstd::math::max(old(self).spec_max().1, pos[1] as int),
                self.spec_max().1 >= old(self).spec_max().1,
                forall|x: int, y: int| self.spec_get(x, y) == old(self).spec_get(x, y),
            decreases pos[1] as int - self.spec_max().1,
        {
            self.push_rows_back();
        }
    }

    /// Places a value into the grid, expanding the window first if the
    /// position lies outside it.
    pub fn put_expand(&mut self, pos: [isize; 2], value: T)
        requires
            old(self).wf(),
            vstd::math::max(old(self).spec_max().0, pos[0] as int) - vstd::math::min(
                old(self).spec_min().0,
                pos[0] as int,
            ) < usize::MAX as int,
            vstd::math::max(old(self).spec_max().1, pos[1] as int) - vstd::math::min(
                old(self).spec_min().1,
                pos[1] as int,
            ) < usize::MAX as int,
        ensures
            final(self).wf(),
            final(self).spec_min().0 == vstd::math::min(old(self).spec_min().0, pos[0] as int),
            final(self).spec_min().1 == vstd::math::min(old(self).spec_min().1, pos[1] as int),
            final(self).spec_max().0 == vstd::math::max(old(self).spec_max().0, pos[0] as int),
            final(self).spec_max().1 == vstd::math::max(old(self).spec_max().1, pos[1] as int),
            final(self).spec_get(pos[0] as int, pos[1] as int) == Some(value),
            forall|x: int, y: int|
                !(x == pos[0] as int && y == pos[1] as int) ==> final(self).spec_get(x, y) == old(
                    self,
                ).spec_get(x, y),
    {
        self.expand_to_include(pos);
        let ok = self.put(pos, value);
        assert(ok);
    }
}

impl<T: Copy> Grid<T> {
    /// Lists every occupied cell as `(x, y, value)`, in row-major order:
    /// ascending `y`, and ascending `x` within a row.
    pub fn enumerate(&self) -> (r: Vec<(isize, isize, T)>)
        requires
            self.wf(),
        ensures
            forall|i: int|
                0 <= i < r@.len() ==> self.spec_get(
                    (#[trigger] r@[i]).0 as int,
                    r@[i].1 as int,
                ) == Some(r@[i].2),
            forall|x: int, y: int|
                #[trigger] self.spec_get(x, y) is Some ==> exists|i: int|
                    0 <= i < r@.len() && (#[trigger] r@[i]).0 as int == x && r@[i].1 as int == y,
            forall|i: int, j: int|
                #![trigger r@[i], r@[j]]
                0 <= i < j < r@.len() ==> ((r@[i].1 as int) < (r@[j].1 as int) || (r@[i].1 as int
                    == r@[j].1 as int && (r@[i].0 as int) < (r@[j].0 as int))),
    {
        let mut out: Vec<(isize, isize, T)> = Vec::new();
        let h = self.rows.len();
        let w = self.columns;
        let mut yi: usize = 0;
        while yi < h
            invariant
                self.wf(),
                h == self.rows@.len(),
                w == self.columns,
                yi <= h,
                forall|i: int|
                    0 <= i < out@.len() ==> self.spec_get(
                        (#[trigger] out@[i]).0 as int,
                        out@[i].1 as int,
                    ) == Some(out@[i].2),
                forall|x: int, y: int|
                    #[trigger] self.spec_get(x, y) is Some && y < self.off_y as int + yi as int
                        ==> exists|i: int|
                        0 <= i < out@.len() && (#[trigger] out@[i]).0 as int == x && out@[i].1 as int
                            == y,
                forall|i: int|
                    0 <= i < out@.len() ==> ((#[trigger] out@[i]).1 as int) < self.off_y as int
                        + yi as int,
                forall|i: int, j: int|
                    #![trigger out@[i], out@[j]]
                    0 <= i < j < out@.len() ==> ((out@[i].1 as int) < (out@[j].1 as int) || (
                    out@[i].1 as int == out@[j].1 as int && (out@[i].0 as int) < (out@[j].0 as int))),
            decreases h - yi,
        {
            let y = (self.off_y as i128 + yi as i128) as isize;
            let mut xi: usize = 0;
            while xi < w
                invariant
                    self.wf(),
                    h == self.rows@.len(),
                    w == self.columns,
                    yi < h,
                    xi <= w,
                    y as int == self.off_y as int + yi as int,
                    forall|i: int|
                        0 <= i < out@.len() ==> self.spec_get(
                            (#[trigger] out@[i]).0 as int,
                            out@[i].1 as int,
                        ) == Some(out@[i].2),
                    forall|x: int, yy: int|
                        #[trigger] self.spec_get(x, yy) is Some && (yy < y as int || (yy == y as int
                            && x < self.off_x as int + xi as int)) ==> exists|i: int|
                            0 <= i < out@.len() && (#[trigger] out@[i]).0 as int == x
                                && out@[i].1 as int == yy,
                    forall|i: int|
                        0 <= i < out@.len() ==> (((#[trigger] out@[i]).1 as int) < (y as int) || (
                        out@[i].1 as int == y as int && (out@[i].0 as int) < self.off_x as int
                            + xi as int)),
                    forall|i: int, j: int|
                        #![trigger out@[i], out@[j]]
                        0 <= i < j < out@.len() ==> ((out@[i].1 as int) < (out@[j].1 as int) || (
                        out@[i].1 as int == out@[j].1 as int && (out@[i].0 as int) < (out@[j].0
                            as int))),
                decreases w - xi,
            {
                let x = (self.off_x as i128 + xi as i128) as isize;
                let ghost out0 = out@;
                match &self.rows[yi][xi] {
                    Some(v) => {
                        let value = *v;
                        assert(self.spec_get(x as int, y as int) == Some(value));
                        out.push((x, y, value));
                    },
                    None => {
                        assert(self.spec_get(x as int, y as int) is None);
                    },
                }
                proof {
                    assert forall|x2: int, yy: int|
                        #[trigger] self.spec_get(x2, yy) is Some && (yy < y as int || (yy
                            == y as int && x2 < self.off_x as int + xi as int + 1)) implies exists|
                        i: int,
                    |
                        0 <= i < out@.len() && (#[trigger] out@[i]).0 as int == x2
                            && out@[i].1 as int == yy by {
                        if yy < y as int || (yy == y as int && x2 < self.off_x as int + xi as int) {
                            let i = choose|i: int|
                                0 <= i < out0.len() && (#[trigger] out0[i]).0 as int == x2
                                    && out0[i].1 as int == yy;
                            assert(0 <= i < out@.len() && out@[i].0 as int == x2 && out@[i].1 as int
                                == yy);
                        } else {
                            assert(x2 == x as int && yy == y as int);
                            let i = out@.len() - 1;
                            assert(0 <= i < out@.len() && out@[i].0 as int == x2 && out@[i].1 as int
                                == yy);
                        }
                    }
                }
                xi = xi + 1;
            }
            yi = yi + 1;
        }
        out
    }
}

/// A row of empty cells of the given width.
fn empty_row<T>(len: usize) -> (r: Vec<Option<T>>)
    ensures
        r@.len() == len as int,
        forall|i: int| 0 <= i < len as int ==> r@[i] is None,
{
    let mut out: Vec<Option<T>> = Vec::new();
    let mut i: usize = 0;
    while i < len
        invariant
            i <= len,
            out@.len() == i as int,
            forall|j: int| 0 <= j < i as int ==> out@[j] is None,
        decreases len - i,
    {
        out.push(None);
        i = i + 1;
    }
    out
}

/// The initial one-by-one window.
fn unit<T>() -> (r: Vec<Vec<Option<T>>>)
    ensures
        r@.len() == 1,
        r@[0]@.len() == 1,
        r@[0]@[0] is None,
{
    let mut row: Vec<Option<T>> = Vec::new();
    row.push(None);
    let mut rows: Vec<Vec<Option<T>>> = Vec::new();
    rows.push(row);
    rows
}

} // verus!
