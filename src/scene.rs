use vstd::prelude::*;

use crate::container::{Container2d, row_major, pos_of, lemma_pos_of, lemma_row_major_bound,
    lemma_row_major_injective};
use crate::point::Point2;

verus! {

/// One cell of a map: empty, or the tile kind `id() - 1`.
#[derive(Debug, Default, Clone, Copy, PartialEq, Eq, Structural)]
pub struct Tile(pub usize);

impl Tile {
    pub fn new(id: usize) -> (r: Self)
        requires
            id < usize::MAX,
        ensures
            r.0 == id + 1,
            !r.is_none_spec(),
    {
        Tile(id + 1)
    }

    pub fn none() -> (r: Self)
        ensures
            r.0 == 0,
            r.is_none_spec(),
    {
        Tile(0)
    }

    pub open spec fn is_none_spec(&self) -> bool {
        self.0 == 0
    }

    pub fn is_none(&self) -> (r: bool)
        ensures
            r == self.is_none_spec(),
    {
        self.0 == 0
    }

    pub fn id(&self) -> (r: usize)
        ensures
            r == self.0,
    {
        self.0
    }
}

/// Handle of a texture held by the renderer.
#[derive(Debug, Clone, Copy, PartialEq, Eq, Structural)]
pub struct TextureId(pub usize);

/// How far a coordinate `p` lies outside `[0, s)`: negative below, positive above.
pub open spec fn overshoot(p: int, s: int) -> int {
    if p >= s {
        p - s + 1
    } else if p < 0 {
        p
    } else {
        0
    }
}

pub open spec fn abs_int(v: int) -> int {
    if v < 0 { -v } else { v }
}

/// The part of an overshoot that moves the grid's origin.
pub open spec fn shift_of(d: int) -> int {
    if d < 0 { d } else { 0 }
}

/// A grid of tiles that grows on demand, addressed by global positions.
/// A global position `g` is stored at local position `g + offset`.
pub struct Scene {
    container: Container2d<Tile>,
    offset: Point2<i32>,
}

impl Scene {
    pub closed spec fn size_spec(&self) -> Point2<usize> {
        self.container.size_spec()
    }

    pub closed spec fn offset_spec(&self) -> Point2<i32> {
        self.offset
    }

    pub open spec fn local_x(&self, gx: int) -> int {
        gx + self.offset_spec().x
    }

    pub open spec fn local_y(&self, gy: int) -> int {
        gy + self.offset_spec().y
    }

    /// Whether the global position `(gx, gy)` has a cell in the grid.
    pub open spec fn holds(&self, gx: int, gy: int) -> bool {
        &&& 0 <= self.local_x(gx) < self.size_spec().x
        &&& 0 <= self.local_y(gy) < self.size_spec().y
    }

    pub closed spec fn cell_at(&self, lx: int, ly: int) -> Tile {
        self.container.cells()[ly * self.container.size_spec().x + lx]
    }

    /// The tile at a global position; outside the grid every position is empty.
    pub open spec fn tile_at(&self, gx: int, gy: int) -> Tile {
        if self.holds(gx, gy) {
            self.cell_at(self.local_x(gx), self.local_y(gy))
        } else {
            Tile(0)
        }
    }

    /// Every cell's global position fits in `i32`.
    pub open spec fn wf(&self) -> bool {
        &&& self.wf_grid()
        &&& self.size_spec().x <= i32::MAX
        &&& self.size_spec().y <= i32::MAX
        &&& self.size_spec().x - 1 - self.offset_spec().x <= i32::MAX
        &&& self.size_spec().y - 1 - self.offset_spec().y <= i32::MAX
    }

    pub closed spec fn wf_grid(&self) -> bool {
        self.container.wf()
    }

    pub open spec fn grown_x(&self, gx: int) -> int {
        self.size_spec().x + abs_int(overshoot(self.local_x(gx), self.size_spec().x as int))
    }

    pub open spec fn grown_y(&self, gy: int) -> int {
        self.size_spec().y + abs_int(overshoot(self.local_y(gy), self.size_spec().y as int))
    }

    pub open spec fn moved_x(&self, gx: int) -> int {
        self.offset_spec().x - shift_of(overshoot(self.local_x(gx), self.size_spec().x as int))
    }

    pub open spec fn moved_y(&self, gy: int) -> int {
        self.offset_spec().y - shift_of(overshoot(self.local_y(gy), self.size_spec().y as int))
    }

    /// The grid grown to hold `g` still fits the machine's integers.
    pub open spec fn can_extend(&self, g: Point2<i32>) -> bool {
        &&& self.grown_x(g.x as int) <= i32::MAX
        &&& self.grown_y(g.y as int) <= i32::MAX
        &&& self.grown_x(g.x as int) * self.grown_y(g.y as int) <= usize::MAX
        &&& i32::MIN <= self.moved_x(g.x as int) <= i32::MAX
        &&& i32::MIN <= self.moved_y(g.y as int) <= i32::MAX
    }

    /// An empty grid of `size` whose local origin is the global position `-offset`.
    pub fn new(size: Point2<usize>, offset: Point2<i32>) -> (r: Self)
        requires
            size.x <= i32::MAX,
            size.y <= i32::MAX,
            size.x * size.y <= usize::MAX,
            size.x - 1 - offset.x <= i32::MAX,
            size.y - 1 - offset.y <= i32::MAX,
        ensures
            r.wf(),
            r.size_spec() == size,
            r.offset_spec() == offset,
            forall|gx: int, gy: int| (#[trigger] r.tile_at(gx, gy)) == Tile(0),
    {
        let container = Container2d::filled(size, Tile::none());
        let r = Scene { container, offset };
        assert forall|gx: int, gy: int| (#[trigger] r.tile_at(gx, gy)) == Tile(0) by {
            if r.holds(gx, gy) {
                let p = Point2 { x: r.local_x(gx) as usize, y: r.local_y(gy) as usize };
                lemma_row_major_bound(size, p);
                assert(r.cell_at(p.x as int, p.y as int) == r.container.cells()[row_major(size, p)]);
            }
        }
        r
    }

    /// Whether the grid, grown to hold `g`, still fits the machine's integers.
    pub fn can_extend_to(&self, g: Point2<i32>) -> (r: bool)
        requires
            self.wf(),
        ensures
            r == self.can_extend(g),
    {
        let size = *self.container.size();
        let sx = size.x as i128;
        let sy = size.y as i128;
        let px = g.x as i128 + self.offset.x as i128;
        let py = g.y as i128 + self.offset.y as i128;
        let dx: i128 = if px >= sx { px - sx + 1 } else if px < 0 { px } else { 0 };
        let dy: i128 = if py >= sy { py - sy + 1 } else if py < 0 { py } else { 0 };
        let nx: i128 = sx + if dx < 0 { -dx } else { dx };
        let ny: i128 = sy + if dy < 0 { -dy } else { dy };
        let mx: i128 = self.offset.x as i128 - if dx < 0 { dx } else { 0 };
        let my: i128 = self.offset.y as i128 - if dy < 0 { dy } else { 0 };
        if nx > i32::MAX as i128 || ny > i32::MAX as i128 {
            return false;
        }
        proof {
            assert(0 <= nx * ny <= 0x4000_0000_0000_0000) by (nonlinear_arith)
                requires 0 <= nx <= 0x7fff_ffff, 0 <= ny <= 0x7fff_ffff;
        }
        nx * ny <= usize::MAX as i128 && i32::MIN as i128 <= mx && mx <= i32::MAX as i128
            && i32::MIN as i128 <= my && my <= i32::MAX as i128
    }

    /// Grows the grid, as little as it can, so that it holds `global_pos`.
    /// Every tile keeps its global position; new cells are empty.
    pub fn extend_to_contain(&mut self, global_pos: Point2<i32>)
        requires
            old(self).wf(),
            old(self).can_extend(global_pos),
        ensures
            final(self).wf(),
            final(self).holds(global_pos.x as int, global_pos.y as int),
            final(self).size_spec().x == old(self).grown_x(global_pos.x as int),
            final(self).size_spec().y == old(self).grown_y(global_pos.y as int),
            final(self).offset_spec().x == old(self).moved_x(global_pos.x as int),
            final(self).offset_spec().y == old(self).moved_y(global_pos.y as int),
            forall|gx: int, gy: int|
                (#[trigger] final(self).tile_at(gx, gy)) == old(self).tile_at(gx, gy),
    {
        let size = *self.container.size();
        let sx = size.x as i64;
        let sy = size.y as i64;
        let px = global_pos.x as i64 + self.offset.x as i64;
        let py = global_pos.y as i64 + self.offset.y as i64;
        let dx: i64 = if px >= sx { px - sx + 1 } else if px < 0 { px } else { 0 };
        let dy: i64 = if py >= sy { py - sy + 1 } else if py < 0 { py } else { 0 };
        let nx: i64 = sx + if dx < 0 { -dx } else { dx };
        let ny: i64 = sy + if dy < 0 { -dy } else { dy };
        if nx != sx || ny != sy {
            let shx: i64 = if dx < 0 { dx } else { 0 };
            let shy: i64 = if dy < 0 { dy } else { 0 };
            let new_offset = Point2 {
                x: (self.offset.x as i64 - shx) as i32,
                y: (self.offset.y as i64 - shy) as i32,
            };
            let new_size = Point2 { x: nx as usize, y: ny as usize };
            let ghost old_grid = self.container;
            let mut grid = Container2d::filled(new_size, Tile::none());
            let cells = self.container.iter();
            assert forall|q: Point2<usize>| q.x < nx && q.y < ny implies (#[trigger] grid.cell(q))
                == moved_cell(old_grid, shx as int, shy as int, q, 0) by {
                lemma_row_major_bound(new_size, q);
            }
            let mut i: usize = 0;
            while i < cells.len()
                invariant
                    self.container == old_grid,
                    old_grid.wf(),
                    old_grid.size_spec() == size,
                    sx == size.x,
                    sy == size.y,
                    shx <= 0,
                    shy <= 0,
                    sx - shx <= nx,
                    sy - shy <= ny,
                    new_size.x == nx,
                    new_size.y == ny,
                    grid.wf(),
                    grid.size_spec() == new_size,
                    cells@.len() == old_grid.cells().len(),
                    i <= cells@.len(),
                    forall|j: int| 0 <= j < cells@.len() ==> (#[trigger] cells@[j]).1
                        == old_grid.cells()[j] && cells@[j].0 == pos_of(size, j),
                    forall|q: Point2<usize>| q.x < nx && q.y < ny ==> (#[trigger] grid.cell(q))
                        == moved_cell(old_grid, shx as int, shy as int, q, i as int),
                decreases cells@.len() - i,
            {
                let (pos, tile) = cells[i];
                proof {
                    lemma_pos_of(size, i as int);
                }
                let target = Point2 { x: (pos.x as i64 - shx) as usize, y: (pos.y as i64 - shy) as usize };
                let ghost before = grid;
                proof {
                    assert(pos == pos_of(size, i as int));
                    assert(target.x < new_size.x && target.y < new_size.y);
                    lemma_row_major_bound(new_size, target);
                }
                grid.set(target, tile);
                proof {
                    assert(grid.cell(target) == tile);
                    assert(moved_cell(old_grid, shx as int, shy as int, target, i + 1) == tile);
                    assert forall|q: Point2<usize>| q.x < nx && q.y < ny implies (#[trigger] grid.cell(q))
                        == moved_cell(old_grid, shx as int, shy as int, q, i + 1) by {
                        if q != target {
                            if row_major(new_size, q) == row_major(new_size, target) {
                                lemma_row_major_injective(new_size, q, target);
                            }
                            if 0 <= q.x + shx < sx && 0 <= q.y + shy < sy {
                                let o = Point2 { x: (q.x + shx) as usize, y: (q.y + shy) as usize };
                                if row_major(size, o) == i {
                                    lemma_row_major_injective(size, o, pos);
                                }
                            }
                            lemma_row_major_bound(new_size, q);
                            assert(grid.cell(q) == before.cell(q));
                        }
                    }
                }
                i = i + 1;
            }
            let ghost old_self = *self;
            self.offset = new_offset;
            self.container = grid;
            proof {
                assert forall|gx: int, gy: int|
                    (#[trigger] self.tile_at(gx, gy)) == old_self.tile_at(gx, gy) by {
                    let q = Point2 { x: self.local_x(gx) as usize, y: self.local_y(gy) as usize };
                    let o = Point2 { x: old_self.local_x(gx) as usize, y: old_self.local_y(gy) as usize };
                    if old_self.holds(gx, gy) {
                        lemma_row_major_bound(size, o);
                        lemma_row_major_bound(new_size, q);
                        assert(self.holds(gx, gy));
                        assert(self.tile_at(gx, gy) == grid.cell(q));
                    } else if self.holds(gx, gy) {
                        lemma_row_major_bound(new_size, q);
                        assert(self.tile_at(gx, gy) == grid.cell(q));
                    }
                }
            }
        }
    }

    /// The local grid position of a global position that the grid holds.
    pub fn to_local(&self, pos: Point2<i32>) -> (r: Point2<usize>)
        requires
            self.wf(),
            self.holds(pos.x as int, pos.y as int),
        ensures
            r.x == self.local_x(pos.x as int),
            r.y == self.local_y(pos.y as int),
    {
        let x = pos.x as i64 + self.offset.x as i64;
        let y = pos.y as i64 + self.offset.y as i64;
        Point2 { x: x as usize, y: y as usize }
    }

    /// The tile at a global position that the grid holds.
    pub fn tile(&self, pos: Point2<i32>) -> (r: Tile)
        requires
            self.wf(),
            self.holds(pos.x as int, pos.y as int),
        ensures
            r == self.tile_at(pos.x as int, pos.y as int),
    {
        let local = self.to_local(pos);
        self.container.get(local)
    }

    /// Stores `tile` at a global position, growing the grid first where it must.
    pub fn set_tile(&mut self, pos: Point2<i32>, tile: Tile)
        requires
            old(self).wf(),
            old(self).can_extend(pos),
        ensures
            final(self).wf(),
            final(self).tile_at(pos.x as int, pos.y as int) == tile,
            forall|gx: int, gy: int| !(gx == pos.x && gy == pos.y)
                ==> (#[trigger] final(self).tile_at(gx, gy)) == old(self).tile_at(gx, gy),
    {
        self.extend_to_contain(pos);
        let ghost mid = *self;
        let local = self.to_local(pos);
        proof { lemma_row_major_bound(self.size_spec(), local); }
        self.container.set(local, tile);
        proof {
            let size = self.size_spec();
            assert forall|gx: int, gy: int| !(gx == pos.x && gy == pos.y)
                implies (#[trigger] self.tile_at(gx, gy)) == mid.tile_at(gx, gy) by {
                if self.holds(gx, gy) {
                    let q = Point2 { x: self.local_x(gx) as usize, y: self.local_y(gy) as usize };
                    lemma_row_major_bound(size, q);
                    if row_major(size, q) == row_major(size, local) {
                        lemma_row_major_injective(size, q, local);
                    }
                    assert(self.tile_at(gx, gy) == self.container.cells()[row_major(size, q)]);
                    assert(mid.tile_at(gx, gy) == mid.container.cells()[row_major(size, q)]);
                }
            }
            assert(self.tile_at(pos.x as int, pos.y as int) == self.container.cells()[row_major(size, local)]);
        }
    }

    /// Every cell with its global position, in row-major order of the grid.
    pub fn iter(&self) -> (r: Vec<(Point2<i32>, Tile)>)
        requires
            self.wf(),
        ensures
            r@.len() == self.size_spec().x * self.size_spec().y,
            forall|i: int| 0 <= i < r@.len() ==> {
                let p = pos_of(self.size_spec(), i);
                &&& (#[trigger] r@[i]).0.x == p.x - self.offset_spec().x
                &&& r@[i].0.y == p.y - self.offset_spec().y
                &&& r@[i].1 == self.tile_at(r@[i].0.x as int, r@[i].0.y as int)
            },
    {
        let cells = self.container.iter();
        let size = *self.container.size();
        let mut r: Vec<(Point2<i32>, Tile)> = Vec::new();
        let mut i: usize = 0;
        while i < cells.len()
            invariant
                self.wf(),
                size == self.size_spec(),
                cells@.len() == size.x * size.y,
                forall|j: int| 0 <= j < cells@.len() ==> (#[trigger] cells@[j]).1
                    == self.container.cells()[j] && cells@[j].0 == pos_of(size, j),
                i <= cells@.len(),
                r@.len() == i,
                forall|j: int| 0 <= j < i ==> {
                    let p = pos_of(size, j);
                    &&& (#[trigger] r@[j]).0.x == p.x - self.offset_spec().x
                    &&& r@[j].0.y == p.y - self.offset_spec().y
                    &&& r@[j].1 == self.tile_at(r@[j].0.x as int, r@[j].0.y as int)
                },
            decreases cells@.len() - i,
        {
            let (pos, tile) = cells[i];
            proof { lemma_pos_of(size, i as int); }
            let g = Point2 {
                x: (pos.x as i64 - self.offset.x as i64) as i32,
                y: (pos.y as i64 - self.offset.y as i64) as i32,
            };
            assert(self.tile_at(g.x as int, g.y as int) == tile);
            r.push((g, tile));
            i = i + 1;
        }
        r
    }
}

/// What cell `q` of a grid grown from `grid` holds once the first `i` old cells,
/// in row-major order, have been copied across with their origin moved by `(shx, shy)`.
pub open spec fn moved_cell(grid: Container2d<Tile>, shx: int, shy: int, q: Point2<usize>, i: int) -> Tile {
    let ox = q.x + shx;
    let oy = q.y + shy;
    let w = grid.size_spec().x as int;
    if 0 <= ox < w && 0 <= oy < grid.size_spec().y && oy * w + ox < i {
        grid.cells()[oy * w + ox]
    } else {
        Tile(0)
    }
}

} // verus!
