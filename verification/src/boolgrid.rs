use vstd::prelude::*;
use crate::grid::Grid;

verus! {

/// A growable sparse grid of booleans: a thin wrapper over [`Grid<()>`] where
/// a present cell reads `true` and an absent cell reads `false`.
pub struct BoolGrid {
    inner: Grid<()>,
}

impl BoolGrid {
    pub closed spec fn wf(&self) -> bool {
        self.inner.wf()
    }

    pub closed spec fn spec_min(&self) -> (int, int) {
        self.inner.spec_min()
    }

    pub closed spec fn spec_max(&self) -> (int, int) {
        self.inner.spec_max()
    }

    /// The boolean stored at an absolute coordinate; coordinates outside the
    /// window read as `false`.
    pub closed spec fn spec_get(&self, x: int, y: int) -> bool {
        self.inner.spec_get(x, y) is Some
    }

    pub fn new() -> (r: Self)
        ensures
            r.wf(),
            r.spec_min() == (0int, 0int),
            r.spec_max() == (0int, 0int),
            forall|x: int, y: int| !r.spec_get(x, y),
    {
        BoolGrid { inner: Grid::new() }
    }

    pub fn min(&self) -> (r: [isize; 2])
        requires
            self.wf(),
        ensures
            r[0] as int == self.spec_min().0,
            r[1] as int == self.spec_min().1,
    {
        self.inner.min()
    }

    pub fn max(&self) -> (r: [isize; 2])
        requires
            self.wf(),
        ensures
            r[0] as int == self.spec_max().0,
            r[1] as int == self.spec_max().1,
    {
        self.inner.max()
    }

    /// Gets a boolean from the grid.
    pub fn get(&self, pos: [isize; 2]) -> (r: bool)
        requires
            self.wf(),
        ensures
            r == self.spec_get(pos[0] as int, pos[1] as int),
    {
        self.inner.contains(pos)
    }

    /// Writes a boolean; writing `true` expands the window as needed, writing
    /// `false` clears the cell without shrinking the window.
    pub fn put(&mut self, pos: [isize; 2], value: bool)
        requires
            old(self).wf(),
            value ==> vstd::math::max(old(self).spec_max().0, pos[0] as int) - vstd::math::min(
                old(self).spec_min().0,
                pos[0] as int,
            ) < usize::MAX as int,
            value ==> vstd::math::max(old(self).spec_max().1, pos[1] as int) - vstd::math::min(
                old(self).spec_min().1,
                pos[1] as int,
            ) < usize::MAX as int,
        ensures
            final(self).wf(),
            final(self).spec_get(pos[0] as int, pos[1] as int) == value,
            forall|x: int, y: int|
                !(x == pos[0] as int && y == pos[1] as int) ==> final(self).spec_get(x, y) == old(
                    self,
                ).spec_get(x, y),
            value ==> final(self).spec_min().0 == vstd::math::min(
                old(self).spec_min().0,
                pos[0] as int,
            ) && final(self).spec_min().1 == vstd::math::min(old(self).spec_min().1, pos[1] as int)
                && final(self).spec_max().0 == vstd::math::max(old(self).spec_max().0, pos[0] as int)
                && final(self).spec_max().1 == vstd::math::max(
                old(self).spec_max().1,
                pos[1] as int,
            ),
            !value ==> final(self).spec_min() == old(self).spec_min() && final(self).spec_max()
                == old(self).spec_max(),
    {
        if value {
            self.inner.put_expand(pos, ());
        } else {
            self.inner.remove(pos);
        }
    }

    /// Returns the (width, height) of the underlying window.
    pub fn size(&self) -> (r: (usize, usize))
        requires
            self.wf(),
        ensures
            r.0 as int == self.spec_max().0 - self.spec_min().0 + 1,
            r.1 as int == self.spec_max().1 - self.spec_min().1 + 1,
    {
        self.inner.size()
    }

    /// Returns the width of the underlying window.
    pub fn width(&self) -> (r: usize)
        requires
            self.wf(),
        ensures
            r as int == self.spec_max().0 - self.spec_min().0 + 1,
    {
        self.inner.width()
    }

    /// Returns the height of the underlying window.
    pub fn height(&self) -> (r: usize)
        requires
            self.wf(),
        ensures
            r as int == self.spec_max().1 - self.spec_min().1 + 1,
    {
        self.inner.height()
    }
}

} // verus!
