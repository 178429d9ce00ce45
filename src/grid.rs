use vstd::prelude::*;

use crate::pos::TilePos;

verus! {

/// A rectangular array of cells addressed by `TilePos`, stored row by row.
pub struct Grid<T> {
    pub width: i32,
    pub height: i32,
    pub cells: Vec<T>,
}

/// Row-major index of `p` in a grid `width` cells wide.
pub open spec fn cell_index(width: int, p: TilePos) -> int {
    p.y * width + p.x
}

pub proof fn lemma_index_in_range(width: int, height: int, p: TilePos)
    requires
        0 <= p.x < width,
        0 <= p.y < height,
    ensures
        0 <= cell_index(width, p) < width * height,
{
    assert(0 <= p.y * width) by (nonlinear_arith)
        requires
            0 <= p.y,
            0 <= width,
    ;
    assert(p.y * width + p.x < width * height) by (nonlinear_arith)
        requires
            0 <= p.x < width,
            0 <= p.y < height,
    ;
}

proof fn lemma_index_injective(width: int, height: int, p: TilePos, q: TilePos)
    requires
        0 <= p.x < width,
        0 <= p.y < height,
        0 <= q.x < width,
        0 <= q.y < height,
        p != q,
    ensures
        cell_index(width, p) != cell_index(width, q),
{
    if p.y == q.y {
        assert(p.x != q.x);
    } else if p.y < q.y {
        assert(p.y * width + width <= q.y * width) by (nonlinear_arith)
            requires
                p.y < q.y,
                0 <= width,
        ;
    } else {
        assert(q.y * width + width <= p.y * width) by (nonlinear_arith)
            requires
                q.y < p.y,
                0 <= width,
        ;
    }
}

impl<T> Grid<T> {
    pub open spec fn in_bounds(&self, p: TilePos) -> bool {
        0 <= p.x < self.width && 0 <= p.y < self.height
    }

    pub open spec fn wf(&self) -> bool {
        &&& 0 <= self.width
        &&& 0 <= self.height
        &&& self.cells@.len() == self.width * self.height
    }

    /// The content of cell `p`, or `None` outside the grid.
    pub open spec fn spec_get(&self, p: TilePos) -> Option<T> {
        if self.in_bounds(p) {
            Some(self.cells@[cell_index(self.width as int, p)])
        } else {
            None
        }
    }

    /// A grid of the given size in which every cell holds `fill`.
    pub fn new(width: i32, height: i32, fill: T) -> (r: Grid<T>)
        where
            T: Copy,
        requires
            0 <= width,
            0 <= height,
            width * height <= usize::MAX,
        ensures
            r.wf(),
            r.width == width,
            r.height == height,
            forall|p: TilePos| r.in_bounds(p) ==> r.spec_get(p) == Some(fill),
    {
        let n: usize = (width as usize) * (height as usize);
        let mut cells: Vec<T> = Vec::new();
        let mut i: usize = 0;
        while i < n
            invariant
                i <= n,
                cells@.len() == i,
                forall|j: int| 0 <= j < i ==> cells@[j] == fill,
            decreases n - i,
        {
            cells.push(fill);
            i = i + 1;
        }
        let r = Grid { width, height, cells };
        assert forall|p: TilePos| r.in_bounds(p) implies r.spec_get(p) == Some(fill) by {
            lemma_index_in_range(width as int, height as int, p);
        }
        r
    }

    /// A grid of the given size holding `cells` row by row.
    pub fn from_raw(width: i32, height: i32, cells: Vec<T>) -> (r: Grid<T>)
        requires
            0 <= width,
            0 <= height,
            cells@.len() == width * height,
        ensures
            r.wf(),
            r.width == width,
            r.height == height,
            r.cells@ == cells@,
    {
        Grid { width, height, cells }
    }

    fn index_of(&self, p: TilePos) -> (r: usize)
        requires
            self.wf(),
            self.in_bounds(p),
        ensures
            r as int == cell_index(self.width as int, p),
            r < self.cells@.len(),
    {
        let n = self.cells.len();
        proof {
            lemma_index_in_range(self.width as int, self.height as int, p);
            assert(0 <= p.y * self.width <= p.y * self.width + p.x < n);
        }
        let row: usize = (p.y as usize) * (self.width as usize);
        row + (p.x as usize)
    }

    /// The content of cell `p`, or `None` outside the grid.
    pub fn get(&self, p: TilePos) -> (r: Option<&T>)
        requires
            self.wf(),
        ensures
            r matches Some(v) ==> self.spec_get(p) == Some(*v),
            r is None <==> self.spec_get(p) is None,
    {
        if 0 <= p.x && p.x < self.width && 0 <= p.y && p.y < self.height {
            let i = self.index_of(p);
            Some(&self.cells[i])
        } else {
            None
        }
    }

    /// Writes `v` into cell `p`; a position outside the grid changes nothing.
    pub fn set(&mut self, p: TilePos, v: T)
        requires
            old(self).wf(),
        ensures
            final(self).wf(),
            final(self).width == old(self).width,
            final(self).height == old(self).height,
            old(self).in_bounds(p) ==> final(self).cells@ == old(self).cells@.update(
                cell_index(old(self).width as int, p),
                v,
            ),
            !old(self).in_bounds(p) ==> final(self).cells@ == old(self).cells@,
            forall|q: TilePos|
                #![trigger final(self).spec_get(q)]
                final(self).spec_get(q) == if q == p && old(self).in_bounds(p) {
                    Some(v)
                } else {
                    old(self).spec_get(q)
                },
    {
        if 0 <= p.x && p.x < self.width && 0 <= p.y && p.y < self.height {
            let i = self.index_of(p);
            self.cells.set(i, v);
            proof {
                assert forall|q: TilePos| #![trigger self.spec_get(q)] q != p && self.in_bounds(q)
                    implies self.spec_get(q) == old(self).spec_get(q) by {
                    lemma_index_in_range(self.width as int, self.height as int, q);
                    lemma_index_injective(self.width as int, self.height as int, p, q);
                }
            }
        }
    }
}

} // verus!
