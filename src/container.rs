use vstd::prelude::*;

use crate::point::Point2;

verus! {

/// Row-major position of `pos` in a grid that is `size.x` wide.
pub open spec fn row_major(size: Point2<usize>, pos: Point2<usize>) -> int {
    pos.y * size.x + pos.x
}

/// Converts between grid positions and row-major storage indices.
#[derive(Debug, Clone, Copy)]
pub struct Indexer {
    size: Point2<usize>,
}

impl Indexer {
    pub closed spec fn size_spec(&self) -> Point2<usize> {
        self.size
    }

    pub fn new(size: Point2<usize>) -> (r: Self)
        ensures
            r.size_spec() == size,
    {
        Indexer { size }
    }

    pub fn to_index(&self, pos: Point2<usize>) -> (r: usize)
        requires
            row_major(self.size_spec(), pos) <= usize::MAX,
        ensures
            r == row_major(self.size_spec(), pos),
    {
        Self::to_index_assoc(self.size, pos)
    }

    pub fn to_index_assoc(size: Point2<usize>, pos: Point2<usize>) -> (r: usize)
        requires
            row_major(size, pos) <= usize::MAX,
        ensures
            r == row_major(size, pos),
    {
        proof {
            assert(0 <= pos.y * size.x) by (nonlinear_arith);
        }
        pos.y * size.x + pos.x
    }

    pub fn index_to_pos(&self, index: usize) -> (r: Point2<usize>)
        requires
            self.size_spec().x > 0,
        ensures
            r.x == index % self.size_spec().x,
            r.y == index / self.size_spec().x,
    {
        Self::index_to_pos_assoc(self.size, index)
    }

    /// Inverse of `to_index_assoc` on a grid whose width is not zero.
    pub fn index_to_pos_assoc(size: Point2<usize>, index: usize) -> (r: Point2<usize>)
        requires
            size.x > 0,
        ensures
            r.x == index % size.x,
            r.y == index / size.x,
            r.x < size.x,
            row_major(size, r) == index,
    {
        let r = Point2 { x: index % size.x, y: index / size.x };
        proof {
            let w = size.x as int;
            let i = index as int;
            assert(i == (i / w) * w + i % w) by (nonlinear_arith)
                requires w > 0;
        }
        r
    }
}

/// A dense grid of values stored row by row.
#[derive(Debug)]
pub struct Container2d<T> {
    data: Vec<T>,
    indexer: Indexer,
    size: Point2<usize>,
}

impl<T> Container2d<T> {
    /// The cells in row-major order.
    pub closed spec fn cells(&self) -> Seq<T> {
        self.data@
    }

    pub closed spec fn size_spec(&self) -> Point2<usize> {
        self.size
    }

    pub open spec fn wf(&self) -> bool {
        &&& self.cells().len() == self.size_spec().x * self.size_spec().y
        &&& self.size_spec().x * self.size_spec().y <= usize::MAX
        &&& self.indexer_ok()
    }

    pub closed spec fn indexer_ok(&self) -> bool {
        self.indexer.size == self.size
    }

    /// The cell at `pos`, which must lie in the grid.
    pub open spec fn cell(&self, pos: Point2<usize>) -> T {
        self.cells()[row_major(self.size_spec(), pos)]
    }

    pub open spec fn contains(&self, pos: Point2<usize>) -> bool {
        pos.x < self.size_spec().x && pos.y < self.size_spec().y
    }

    /// A grid of `size` filled with `T::default()`.
    pub fn new(size: Point2<usize>) -> (r: Self)
        where
            T: Default,
        requires
            size.x * size.y <= usize::MAX,
        ensures
            r.wf(),
            r.size_spec() == size,
            forall|i: int| 0 <= i < r.cells().len() ==> call_ensures(T::default, (), #[trigger] r.cells()[i]),
    {
        let n = size.x * size.y;
        let mut data: Vec<T> = Vec::new();
        let mut i: usize = 0;
        while i < n
            invariant
                i <= n,
                data@.len() == i,
                forall|j: int| 0 <= j < i ==> call_ensures(T::default, (), #[trigger] data@[j]),
            decreases n - i,
        {
            data.push(T::default());
            i = i + 1;
        }
        let indexer = Indexer::new(size);
        Container2d { data, indexer, size }
    }

    /// A grid of `size` with every cell set to `value`.
    pub fn filled(size: Point2<usize>, value: T) -> (r: Self)
        where
            T: Copy,
        requires
            size.x * size.y <= usize::MAX,
        ensures
            r.wf(),
            r.size_spec() == size,
            forall|i: int| 0 <= i < r.cells().len() ==> r.cells()[i] == value,
    {
        let n = size.x * size.y;
        let mut data: Vec<T> = Vec::new();
        let mut i: usize = 0;
        while i < n
            invariant
                i <= n,
                data@.len() == i,
                forall|j: int| 0 <= j < i ==> data@[j] == value,
            decreases n - i,
        {
            data.push(value);
            i = i + 1;
        }
        let indexer = Indexer::new(size);
        Container2d { data, indexer, size }
    }

    pub fn size(&self) -> (r: &Point2<usize>)
        ensures
            *r == self.size_spec(),
    {
        &self.size
    }
}

/// The position in a grid whose cell sits at row-major `index`.
pub open spec fn pos_of(size: Point2<usize>, index: int) -> Point2<usize> {
    Point2 { x: (index % size.x as int) as usize, y: (index / size.x as int) as usize }
}

/// Distinct positions inside a grid have distinct row-major indices.
pub proof fn lemma_row_major_injective(size: Point2<usize>, a: Point2<usize>, b: Point2<usize>)
    requires
        a.x < size.x,
        b.x < size.x,
        row_major(size, a) == row_major(size, b),
    ensures
        a == b,
{
    let w = size.x as int;
    let (ax, ay, bx, by) = (a.x as int, a.y as int, b.x as int, b.y as int);
    assert(ay == by) by (nonlinear_arith)
        requires
            0 <= ax < w, 0 <= bx < w, 0 <= ay, 0 <= by,
            ay * w + ax == by * w + bx;
}

/// The position of a row-major index lies in the grid and maps back to it.
pub proof fn lemma_pos_of(size: Point2<usize>, i: int)
    requires
        0 <= i < size.x * size.y,
    ensures
        pos_of(size, i).x < size.x,
        pos_of(size, i).y < size.y,
        row_major(size, pos_of(size, i)) == i,
{
    let w = size.x as int;
    let h = size.y as int;
    assert(w > 0) by (nonlinear_arith)
        requires 0 <= i < w * h, h >= 0;
    assert(i == (i / w) * w + i % w && 0 <= i % w < w && 0 <= i / w < h) by (nonlinear_arith)
        requires w > 0, 0 <= i < w * h;
}

pub proof fn lemma_row_major_bound(size: Point2<usize>, pos: Point2<usize>)
    requires
        pos.x < size.x,
        pos.y < size.y,
    ensures
        0 <= row_major(size, pos) < size.x * size.y,
{
    assert(pos.y * size.x + pos.x < size.x * size.y) by (nonlinear_arith)
        requires pos.x < size.x, pos.y < size.y;
    assert(0 <= pos.y * size.x) by (nonlinear_arith);
}

impl<T: Copy> Container2d<T> {
    pub fn get(&self, pos: Point2<usize>) -> (r: T)
        requires
            self.wf(),
            self.contains(pos),
        ensures
            r == self.cell(pos),
    {
        proof { lemma_row_major_bound(self.size, pos); }
        self.data[self.indexer.to_index(pos)]
    }

    pub fn set(&mut self, pos: Point2<usize>, value: T)
        requires
            old(self).wf(),
            old(self).contains(pos),
        ensures
            final(self).wf(),
            final(self).size_spec() == old(self).size_spec(),
            final(self).cells() == old(self).cells().update(row_major(old(self).size_spec(), pos), value),
    {
        proof { lemma_row_major_bound(self.size, pos); }
        let index = self.indexer.to_index(pos);
        self.data.set(index, value);
    }

    /// Every cell with its position, in row-major order.
    pub fn iter(&self) -> (r: Vec<(Point2<usize>, T)>)
        requires
            self.wf(),
        ensures
            r@.len() == self.cells().len(),
            forall|i: int| 0 <= i < r@.len() ==> (#[trigger] r@[i]).1 == self.cells()[i]
                && r@[i].0 == pos_of(self.size_spec(), i),
    {
        let mut r: Vec<(Point2<usize>, T)> = Vec::new();
        let n = self.data.len();
        let mut i: usize = 0;
        if n > 0 {
            assert(self.size.x > 0) by {
                if self.size.x == 0 {
                    assert(self.size.x * self.size.y == 0) by (nonlinear_arith)
                        requires self.size.x == 0;
                }
            }
        }
        while i < n
            invariant
                i <= n,
                n == self.data@.len(),
                n > 0 ==> self.size.x > 0,
                self.wf(),
                r@.len() == i,
                forall|j: int| 0 <= j < i ==> (#[trigger] r@[j]).1 == self.cells()[j]
                    && r@[j].0 == pos_of(self.size_spec(), j),
            decreases n - i,
        {
            let pos = self.indexer.index_to_pos(i);
            r.push((pos, self.data[i]));
            i = i + 1;
        }
        r
    }
}

} // verus!
