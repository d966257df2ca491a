//! The wind tunnel grid: a row-major grid of D2Q9 cells, a mask of solid
//! cells, and the step that collides, streams and applies the inlet on the
//! left edge and the outflow on the right edge.
//!
//! The grid is generic over the value held in each slot; the collision rule
//! is supplied by the caller.
use vstd::prelude::*;
use crate::lattice::Q;
use crate::streaming::{
    cell_index, lemma_cell_coords, lemma_cell_in_grid, lemma_index_coords, pull_source, slot,
    stream_periodic, streamed_value, streams_to,
};

verus! {

/// A wind tunnel of `width` by `height` cells stored row by row.
pub struct Simulation<T> {
    width: usize,
    height: usize,
    empty: T,
    grid: Vec<[T; Q]>,
    solid: Vec<bool>,
}

/// `left` is `grid` with every open cell of the left column set to `inlet`;
/// the result then has every open cell of the right column replaced by its
/// left neighbour, when the tunnel is at least two cells wide.
pub open spec fn with_inlet_outlet<T>(
    grid: Seq<[T; Q]>,
    solid: Seq<bool>,
    width: int,
    inlet: [T; Q],
) -> Seq<[T; Q]> {
    let left = Seq::new(
        grid.len(),
        |d: int|
            if d % width == 0 && !solid[d] {
                inlet
            } else {
                grid[d]
            },
    );
    Seq::new(
        grid.len(),
        |d: int|
            if width >= 2 && d % width == width - 1 && !solid[d] {
                left[d - 1]
            } else {
                left[d]
            },
    )
}

/// `after` holds, cell by cell, a result of `collide` on the cell of `before`.
pub open spec fn collides_to<T, F: Fn(&[T; Q]) -> [T; Q]>(
    collide: F,
    before: Seq<[T; Q]>,
    after: Seq<[T; Q]>,
) -> bool {
    &&& after.len() == before.len()
    &&& forall|d: int| 0 <= d < before.len() ==> call_ensures(collide, (&before[d],), #[trigger] after[d])
}

/// One step of the tunnel takes `before` to `after`: every cell collides,
/// the distributions stream, then the inlet and outflow edges are applied.
pub open spec fn steps_to<T, F: Fn(&[T; Q]) -> [T; Q]>(
    collide: F,
    inlet: [T; Q],
    solid: Seq<bool>,
    width: int,
    height: int,
    empty: T,
    before: Seq<[T; Q]>,
    after: Seq<[T; Q]>,
) -> bool {
    exists|collided: Seq<[T; Q]>, streamed: Seq<[T; Q]>|
        #![trigger collides_to(collide, before, collided), streams_to(collided, solid, width, height, empty, streamed)]
        {
            &&& collides_to(collide, before, collided)
            &&& streams_to(collided, solid, width, height, empty, streamed)
            &&& after == with_inlet_outlet(streamed, solid, width, inlet)
        }
}

impl<T: Copy> Simulation<T> {
    /// Width of the tunnel in cells.
    pub closed spec fn grid_width(&self) -> nat {
        self.width as nat
    }

    /// Height of the tunnel in cells.
    pub closed spec fn grid_height(&self) -> nat {
        self.height as nat
    }

    /// The value of a slot that holds no fluid.
    pub closed spec fn empty_value(&self) -> T {
        self.empty
    }

    /// The cells, row by row.
    pub closed spec fn cells(&self) -> Seq<[T; Q]> {
        self.grid@
    }

    /// Which cells are solid, row by row.
    pub closed spec fn solid_mask(&self) -> Seq<bool> {
        self.solid@
    }

    /// The grid and the mask both hold one entry per cell, and the number of
    /// cells fits in a `usize`.
    pub open spec fn wf(&self) -> bool {
        &&& self.cells().len() == self.grid_width() * self.grid_height()
        &&& self.solid_mask().len() == self.grid_width() * self.grid_height()
        &&& self.grid_width() * self.grid_height() <= usize::MAX
    }

    /// A tunnel whose open cells hold `fluid` and whose solid cells, those
    /// marked in `solid`, hold `empty` in every slot.
    pub fn new(width: usize, height: usize, fluid: [T; Q], empty: T, solid: Vec<bool>) -> (sim: Self)
        requires
            solid@.len() == width * height,
        ensures
            sim.wf(),
            sim.cells().len() == width * height,
            sim.grid_width() == width,
            sim.grid_height() == height,
            sim.empty_value() == empty,
            sim.solid_mask() == solid@,
            forall|d: int, j: int|
                0 <= d < width * height && 0 <= j < Q ==> #[trigger] slot(sim.cells(), d, j) == (
                if solid@[d] {
                    empty
                } else {
                    fluid@[j]
                }),
    {
        let size = solid.len();
        let blocked: [T; Q] = [empty; Q];
        let mut grid: Vec<[T; Q]> = Vec::with_capacity(size);
        let mut idx: usize = 0;
        while idx < size
            invariant
                size == solid@.len(),
                idx <= size,
                grid@.len() == idx,
                forall|d: int|
                    0 <= d < idx ==> #[trigger] grid@[d] == (if solid@[d] {
                        blocked
                    } else {
                        fluid
                    }),
            decreases size - idx,
        {
            if solid[idx] {
                grid.push(blocked);
            } else {
                grid.push(fluid);
            }
            idx += 1;
        }
        Simulation { width, height, empty, grid, solid }
    }

    /// Position of the cell in column `x`, row `y` in the row-major grid.
    pub fn index_from_xy(&self, x: usize, y: usize) -> (idx: usize)
        requires
            y * self.grid_width() + x <= usize::MAX,
        ensures
            idx == cell_index(x as int, y as int, self.grid_width() as int),
    {
        y * self.width + x
    }

    /// Whether the cell in column `x`, row `y` is solid.
    pub fn is_solid(&self, x: usize, y: usize) -> (solid: bool)
        requires
            self.wf(),
            y * self.grid_width() + x < self.grid_width() * self.grid_height(),
        ensures
            solid == self.solid_mask()[cell_index(x as int, y as int, self.grid_width() as int)],
    {
        let idx = self.index_from_xy(x, y);
        self.solid[idx]
    }

    /// The slots of the cell in column `x`, row `y`.
    pub fn cell_at(&self, x: usize, y: usize) -> (cell: [T; Q])
        requires
            self.wf(),
            y * self.grid_width() + x < self.grid_width() * self.grid_height(),
        ensures
            cell == self.cells()[cell_index(x as int, y as int, self.grid_width() as int)],
    {
        let idx = self.index_from_xy(x, y);
        self.grid[idx]
    }

    /// The left column receives `inlet` in every open cell; then every open
    /// cell of the right column copies its left neighbour.
    fn apply_inlet_outlet(&mut self, inlet: [T; Q])
        requires
            old(self).wf(),
            old(self).width > 0 || old(self).height == 0,
        ensures
            final(self).wf(),
            final(self).width == old(self).width,
            final(self).height == old(self).height,
            final(self).empty == old(self).empty,
            final(self).solid@ == old(self).solid@,
            final(self).grid@ == with_inlet_outlet(
                old(self).grid@,
                old(self).solid@,
                old(self).width as int,
                inlet,
            ),
    {
        let ghost w = self.width as int;
        let ghost h = self.height as int;
        let ghost start = self.grid@;
        let ghost empty = self.empty;
        let ghost solid = self.solid@;
        let ghost spec_result = with_inlet_outlet(start, self.solid@, w, inlet);
        let ghost left = Seq::new(
            start.len(),
            |d: int|
                if d % w == 0 && !self.solid@[d] {
                    inlet
                } else {
                    start[d]
                },
        );
        assert forall|d: int| 0 <= d < start.len() implies #[trigger] left[d] == (if d % w == 0
            && !solid[d] {
            inlet
        } else {
            start[d]
        }) by {}
        let mut y: usize = 0;
        while y < self.height
            invariant
                self.wf(),
                w == self.width as int,
                h == self.height as int,
                y <= self.height,
                start.len() == self.grid@.len(),
                left.len() == start.len(),
                self.empty == empty,
                self.solid@ == solid,
                h > 0 ==> w > 0,
                forall|d: int|
                    0 <= d < start.len() ==> #[trigger] left[d] == (if d % w == 0 && !solid[d] {
                        inlet
                    } else {
                        start[d]
                    }),
                forall|d: int|
                    0 <= d < start.len() ==> #[trigger] self.grid@[d] == (if d / w < y {
                        left[d]
                    } else {
                        start[d]
                    }),
            decreases self.height - y,
        {
            proof {
                lemma_cell_in_grid(0, y as int, w, h);
                lemma_cell_coords(0, y as int, w);
            }
            let idx = self.index_from_xy(0, y);
            if !self.solid[idx] {
                self.grid.set(idx, inlet);
            }
            assert forall|d: int| 0 <= d < start.len() implies #[trigger] self.grid@[d] == (if d / w
                < y + 1 {
                left[d]
            } else {
                start[d]
            }) by {
                lemma_index_coords(d, w, h);
                if d / w == y as int && d != idx as int {
                    assert(d % w != 0);
                }
            }
            y += 1;
        }
        assert(self.grid@ =~= left) by {
            assert forall|d: int| 0 <= d < start.len() implies self.grid@[d] == left[d] by {
                lemma_index_coords(d, w, h);
            }
        }
        if self.width >= 2 {
            assert forall|d: int| 0 <= d < left.len() implies #[trigger] spec_result[d] == (if d
                % w == w - 1 && !solid[d] {
                left[d - 1]
            } else {
                left[d]
            }) by {
                lemma_index_coords(d, w, h);
                if d % w == w - 1 {
                    assert(d >= 1) by (nonlinear_arith)
                        requires
                            d == (d / w) * w + d % w,
                            d / w >= 0,
                            d % w == w - 1,
                            w >= 2,
                    ;
                }
            }
            let mut y: usize = 0;
            while y < self.height
                invariant
                    self.wf(),
                    w == self.width as int,
                    h == self.height as int,
                    w >= 2,
                    y <= self.height,
                    left.len() == self.grid@.len(),
                    spec_result.len() == left.len(),
                    self.empty == empty,
                    self.solid@ == solid,
                    forall|d: int|
                        0 <= d < left.len() ==> #[trigger] spec_result[d] == (if d % w == w - 1
                            && !solid[d] {
                            left[d - 1]
                        } else {
                            left[d]
                        }),
                    forall|d: int|
                        0 <= d < left.len() ==> #[trigger] self.grid@[d] == (if d / w < y {
                            spec_result[d]
                        } else {
                            left[d]
                        }),
                decreases self.height - y,
            {
                proof {
                    lemma_cell_in_grid(w - 1, y as int, w, h);
                    lemma_cell_coords(w - 1, y as int, w);
                    lemma_cell_coords(w - 2, y as int, w);
                }
                let idx_out = self.index_from_xy(self.width - 1, y);
                let idx_in = self.index_from_xy(self.width - 2, y);
                if !self.solid[idx_out] {
                    let neighbour = self.grid[idx_in];
                    self.grid.set(idx_out, neighbour);
                }
                assert forall|d: int| 0 <= d < left.len() implies #[trigger] self.grid@[d] == (if d
                    / w < y + 1 {
                    spec_result[d]
                } else {
                    left[d]
                }) by {
                    lemma_index_coords(d, w, h);
                    if d / w == y as int && d != idx_out as int {
                        assert(d % w != w - 1);
                    }
                }
                y += 1;
            }
            assert(self.grid@ =~= spec_result) by {
                assert forall|d: int| 0 <= d < left.len() implies self.grid@[d] == spec_result[d] by {
                    lemma_index_coords(d, w, h);
                }
            }
        } else {
            assert(self.grid@ =~= spec_result);
        }
    }

    /// Advances the tunnel by one step: every cell collides through `collide`,
    /// the distributions stream, the open cells of the left column receive
    /// `inlet`, and the open cells of the right column copy their left neighbour.
    pub fn step<F: Fn(&[T; Q]) -> [T; Q]>(&mut self, collide: F, inlet: [T; Q])
        requires
            old(self).wf(),
            old(self).grid_width() > 0 || old(self).grid_height() == 0,
            forall|c: [T; Q]| call_requires(collide, (&c,)),
        ensures
            final(self).wf(),
            final(self).grid_width() == old(self).grid_width(),
            final(self).grid_height() == old(self).grid_height(),
            final(self).empty_value() == old(self).empty_value(),
            final(self).solid_mask() == old(self).solid_mask(),
            steps_to(
                collide,
                inlet,
                old(self).solid_mask(),
                old(self).grid_width() as int,
                old(self).grid_height() as int,
                old(self).empty_value(),
                old(self).cells(),
                final(self).cells(),
            ),
    {
        let n = self.grid.len();
        let mut collided: Vec<[T; Q]> = Vec::with_capacity(n);
        let mut d: usize = 0;
        while d < n
            invariant
                n == self.grid@.len(),
                d <= n,
                collided@.len() == d,
                forall|c: [T; Q]| call_requires(collide, (&c,)),
                forall|e: int| 0 <= e < d ==> call_ensures(collide, (&self.grid@[e],), #[trigger] collided@[e]),
            decreases n - d,
        {
            let after = collide(&self.grid[d]);
            collided.push(after);
            d += 1;
        }
        let ghost before = self.grid@;
        let streamed = stream_periodic(collided.as_slice(), self.solid.as_slice(), self.width, self.height, self.empty);
        assert(collides_to(collide, before, collided@));
        self.grid = streamed;
        self.apply_inlet_outlet(inlet);
    }
}

/// The edges touch only the left and right columns: every cell strictly between
/// them keeps its value, an open cell of the left column takes the inlet, an
/// open cell of the right column (in a tunnel at least two wide) takes the new
/// value of its left neighbour, and solid cells keep their value.
pub proof fn lemma_edges_only_touch_side_columns<T>(
    grid: Seq<[T; Q]>,
    solid: Seq<bool>,
    width: int,
    height: int,
    inlet: [T; Q],
    x: int,
    y: int,
)
    requires
        1 <= width,
        0 <= height,
        grid.len() == width * height,
        solid.len() == width * height,
        0 <= x < width,
        0 <= y < height,
    ensures
        with_inlet_outlet(grid, solid, width, inlet).len() == grid.len(),
        0 < x < width - 1 ==> with_inlet_outlet(grid, solid, width, inlet)[cell_index(x, y, width)]
            == grid[cell_index(x, y, width)],
        solid[cell_index(x, y, width)] ==> with_inlet_outlet(grid, solid, width, inlet)[cell_index(
            x,
            y,
            width,
        )] == grid[cell_index(x, y, width)],
        x == 0 && !solid[cell_index(x, y, width)] ==> with_inlet_outlet(grid, solid, width, inlet)[cell_index(
            x,
            y,
            width,
        )] == inlet,
        width >= 2 && x == width - 1 && !solid[cell_index(x, y, width)] ==> with_inlet_outlet(
            grid,
            solid,
            width,
            inlet,
        )[cell_index(x, y, width)] == with_inlet_outlet(grid, solid, width, inlet)[cell_index(
            x - 1,
            y,
            width,
        )],
{
    lemma_cell_in_grid(x, y, width, height);
    lemma_cell_coords(x, y, width);
    if x >= 1 {
        lemma_cell_in_grid(x - 1, y, width, height);
        lemma_cell_coords(x - 1, y, width);
        assert(cell_index(x - 1, y, width) == cell_index(x, y, width) - 1);
    }
}

/// After a step, every cell strictly between the left and right columns holds
/// exactly what streaming brought it from the collided grid: the edges change
/// nothing in the interior, solid neighbours included.
pub proof fn lemma_step_interior_is_streamed<T, F: Fn(&[T; Q]) -> [T; Q]>(
    collide: F,
    inlet: [T; Q],
    solid: Seq<bool>,
    width: int,
    height: int,
    empty: T,
    before: Seq<[T; Q]>,
    after: Seq<[T; Q]>,
)
    requires
        1 <= width,
        0 <= height,
        solid.len() == width * height,
        before.len() == width * height,
        steps_to(collide, inlet, solid, width, height, empty, before, after),
    ensures
        exists|collided: Seq<[T; Q]>|
            #![trigger collides_to(collide, before, collided)]
            {
                &&& collides_to(collide, before, collided)
                &&& forall|x: int, y: int, j: int|
                    0 < x < width - 1 && 0 <= y < height && 0 <= j < Q ==> #[trigger] slot(
                        after,
                        cell_index(x, y, width),
                        j,
                    ) == streamed_value(collided, solid, width, height, x, y, j, empty)
            },
{
    let (collided, streamed) = choose|collided: Seq<[T; Q]>, streamed: Seq<[T; Q]>|
        {
            &&& collides_to(collide, before, collided)
            &&& streams_to(collided, solid, width, height, empty, streamed)
            &&& after == with_inlet_outlet(streamed, solid, width, inlet)
        };
    assert forall|x: int, y: int, j: int|
        0 < x < width - 1 && 0 <= y < height && 0 <= j < Q implies #[trigger] slot(
        after,
        cell_index(x, y, width),
        j,
    ) == streamed_value(collided, solid, width, height, x, y, j, empty) by {
        lemma_edges_only_touch_side_columns(streamed, solid, width, height, inlet, x, y);
        assert(slot(streamed, cell_index(x, y, width), j) == streamed_value(
            collided,
            solid,
            width,
            height,
            x,
            y,
            j,
            empty,
        ));
    }
    assert(collides_to(collide, before, collided));
}

/// Applying the inlet and outflow edges twice gives the same grid as applying them once.
pub proof fn lemma_inlet_outlet_idempotent<T>(
    grid: Seq<[T; Q]>,
    solid: Seq<bool>,
    width: int,
    height: int,
    inlet: [T; Q],
)
    requires
        1 <= width,
        0 <= height,
        grid.len() == width * height,
        solid.len() == width * height,
    ensures
        with_inlet_outlet(with_inlet_outlet(grid, solid, width, inlet), solid, width, inlet)
            == with_inlet_outlet(grid, solid, width, inlet),
{
    let once = with_inlet_outlet(grid, solid, width, inlet);
    let twice = with_inlet_outlet(once, solid, width, inlet);
    assert forall|d: int| 0 <= d < grid.len() implies #[trigger] twice[d] == once[d] by {
        lemma_index_coords(d, width, height);
        let x = d % width;
        let y = d / width;
        if width >= 2 && x == width - 1 {
            lemma_cell_coords(width - 2, y, width);
            assert(d - 1 == cell_index(width - 2, y, width));
        }
    }
    assert(twice =~= once);
}

/// After a step, every solid cell holds the empty value in every slot.
pub proof fn lemma_solid_cells_stay_empty<T, F: Fn(&[T; Q]) -> [T; Q]>(
    collide: F,
    inlet: [T; Q],
    solid: Seq<bool>,
    width: int,
    height: int,
    empty: T,
    before: Seq<[T; Q]>,
    after: Seq<[T; Q]>,
    d: int,
    j: int,
)
    requires
        0 <= width,
        0 <= height,
        solid.len() == width * height,
        before.len() == width * height,
        steps_to(collide, inlet, solid, width, height, empty, before, after),
        0 <= d < width * height,
        solid[d],
        0 <= j < Q,
    ensures
        slot(after, d, j) == empty,
{
    let (collided, streamed) = choose|collided: Seq<[T; Q]>, streamed: Seq<[T; Q]>|
        {
            &&& collides_to(collide, before, collided)
            &&& streams_to(collided, solid, width, height, empty, streamed)
            &&& after == with_inlet_outlet(streamed, solid, width, inlet)
        };
    lemma_index_coords(d, width, height);
    let x = d % width;
    let y = d / width;
    assert(slot(streamed, cell_index(x, y, width), j) == streamed_value(
        collided,
        solid,
        width,
        height,
        x,
        y,
        j,
        empty,
    ));
    assert(pull_source(solid, width, height, x, y, j) is None);
}

/// After a step, every open cell of the left column holds the inlet value and
/// every open cell of the right column equals its left neighbour (for a tunnel
/// at least two cells wide).
pub proof fn lemma_edges_after_step<T, F: Fn(&[T; Q]) -> [T; Q]>(
    collide: F,
    inlet: [T; Q],
    solid: Seq<bool>,
    width: int,
    height: int,
    empty: T,
    before: Seq<[T; Q]>,
    after: Seq<[T; Q]>,
    y: int,
)
    requires
        0 <= width,
        0 <= height,
        solid.len() == width * height,
        before.len() == width * height,
        steps_to(collide, inlet, solid, width, height, empty, before, after),
        0 <= y < height,
        1 <= width,
    ensures
        !solid[cell_index(0, y, width)] ==> after[cell_index(0, y, width)] == inlet,
        width >= 2 && !solid[cell_index(width - 1, y, width)] ==> after[cell_index(width - 1, y, width)]
            == after[cell_index(width - 2, y, width)],
{
    let (collided, streamed) = choose|collided: Seq<[T; Q]>, streamed: Seq<[T; Q]>|
        {
            &&& collides_to(collide, before, collided)
            &&& streams_to(collided, solid, width, height, empty, streamed)
            &&& after == with_inlet_outlet(streamed, solid, width, inlet)
        };
    lemma_cell_in_grid(0, y, width, height);
    lemma_cell_coords(0, y, width);
    lemma_cell_in_grid(width - 1, y, width, height);
    lemma_cell_coords(width - 1, y, width);
    if width >= 2 {
        lemma_cell_coords(width - 2, y, width);
    }
}

} // verus!
