//! Streaming: after collision every distribution moves one cell along its
//! direction. The tunnel wraps vertically, is open at its left and right
//! edges, and a distribution that would enter a solid cell bounces back into
//! the opposite slot of the cell it came from.
use vstd::prelude::*;
use vstd::arithmetic::div_mod::lemma_fundamental_div_mod_converse;
use crate::lattice::{
    Q, direction_at, direction_of, direction_vector, lemma_unit_vectors, offset_x, offset_y,
    opposite_direction_index, opposite_index,
};

verus! {

/// Position in the row-major grid of the cell in column `x`, row `y`.
pub open spec fn cell_index(x: int, y: int, width: int) -> int {
    y * width + x
}

/// The row reached from row `y` after moving `dy` rows, the grid wrapping vertically.
pub open spec fn wrap_row(y: int, dy: int, height: int) -> int {
    (y + dy + height) % height
}

/// Whether the cell in column `x`, row `y` is solid.
pub open spec fn is_solid_at(solid: Seq<bool>, width: int, x: int, y: int) -> bool {
    solid[cell_index(x, y, width)]
}

/// Value of slot `j` of cell `d` of a grid.
pub open spec fn slot<T>(grid: Seq<[T; Q]>, d: int, j: int) -> T {
    grid[d]@[j]
}

/// Where the distribution in slot `i` of cell `(x, y)` goes: `(column, row, slot)`.
/// Solid cells send nothing; what would leave through the left or right edge
/// is lost; what would enter a solid cell comes back into the opposite slot.
pub open spec fn push_dest(solid: Seq<bool>, width: int, height: int, x: int, y: int, i: int) -> Option<
    (int, int, int),
> {
    if is_solid_at(solid, width, x, y) {
        None
    } else {
        let nx = x + offset_x(i);
        if nx < 0 || nx >= width {
            None
        } else {
            let ny = wrap_row(y, offset_y(i), height);
            if is_solid_at(solid, width, nx, ny) {
                Some((x, y, opposite_index(i)))
            } else {
                Some((nx, ny, i))
            }
        }
    }
}

/// Which distribution arrives in slot `j` of cell `(x, y)`: `(column, row, slot)`
/// of its source, or none.
pub open spec fn pull_source(solid: Seq<bool>, width: int, height: int, x: int, y: int, j: int) -> Option<
    (int, int, int),
> {
    if is_solid_at(solid, width, x, y) {
        None
    } else {
        let sx = x - offset_x(j);
        if sx < 0 || sx >= width {
            None
        } else {
            let sy = wrap_row(y, -offset_y(j), height);
            if is_solid_at(solid, width, sx, sy) {
                Some((x, y, opposite_index(j)))
            } else {
                Some((sx, sy, j))
            }
        }
    }
}

/// What slot `j` of cell `(x, y)` holds after streaming `old`: the value of its
/// source, or `zero` where nothing arrives.
pub open spec fn streamed_value<T>(
    old: Seq<[T; Q]>,
    solid: Seq<bool>,
    width: int,
    height: int,
    x: int,
    y: int,
    j: int,
    zero: T,
) -> T {
    match pull_source(solid, width, height, x, y, j) {
        Some(s) => slot(old, cell_index(s.0, s.1, width), s.2),
        None => zero,
    }
}

/// `new` is the grid `old` becomes by one streaming step.
pub open spec fn streams_to<T>(
    old: Seq<[T; Q]>,
    solid: Seq<bool>,
    width: int,
    height: int,
    zero: T,
    new: Seq<[T; Q]>,
) -> bool {
    &&& new.len() == old.len()
    &&& forall|x: int, y: int, j: int|
        0 <= x < width && 0 <= y < height && 0 <= j < Q ==> #[trigger] slot(
            new,
            cell_index(x, y, width),
            j,
        ) == streamed_value(old, solid, width, height, x, y, j, zero)
}

/// A cell inside a `width` by `height` grid has an index inside the grid.
pub proof fn lemma_cell_in_grid(x: int, y: int, width: int, height: int)
    requires
        0 <= x < width,
        0 <= y < height,
    ensures
        0 <= cell_index(x, y, width) < width * height,
{
    assert(0 <= y * width + x < width * height) by (nonlinear_arith)
        requires
            0 <= x < width,
            0 <= y < height,
    ;
}

/// Column and row are recovered from a cell's index.
pub proof fn lemma_cell_coords(x: int, y: int, width: int)
    requires
        0 <= x < width,
    ensures
        cell_index(x, y, width) % width == x,
        cell_index(x, y, width) / width == y,
{
    lemma_fundamental_div_mod_converse(cell_index(x, y, width), width, y, x);
}

/// Every index inside the grid is the index of the cell at its column and row.
pub proof fn lemma_index_coords(d: int, width: int, height: int)
    requires
        0 <= width,
        0 <= height,
        0 <= d < width * height,
    ensures
        0 <= d % width < width,
        0 <= d / width < height,
        cell_index(d % width, d / width, width) == d,
{
    assert(width > 0) by (nonlinear_arith)
        requires
            0 <= d < width * height,
            0 <= width,
            0 <= height,
    ;
    vstd::arithmetic::div_mod::lemma_fundamental_div_mod(d, width);
    vstd::arithmetic::div_mod::lemma_mod_bound(d, width);
    assert(d / width < height) by (nonlinear_arith)
        requires
            0 <= d < width * height,
            width > 0,
            d == width * (d / width) + d % width,
            0 <= d % width,
    ;
    assert(d / width >= 0) by (nonlinear_arith)
        requires
            0 <= d,
            width > 0,
            d == width * (d / width) + d % width,
            d % width < width,
    ;
    assert(cell_index(d % width, d / width, width) == d) by (nonlinear_arith)
        requires
            d == width * (d / width) + d % width,
    ;
}

/// Moving one row and back leaves the row unchanged; the moved row stays in the grid
/// and is the neighbouring row with the ends joined.
pub proof fn lemma_wrap_row(y: int, dy: int, height: int)
    requires
        0 <= y < height,
        -1 <= dy <= 1,
    ensures
        0 <= wrap_row(y, dy, height) < height,
        wrap_row(wrap_row(y, dy, height), -dy, height) == y,
        wrap_row(y, dy, height) == (if y + dy < 0 {
            height - 1
        } else if y + dy >= height {
            0
        } else {
            y + dy
        }),
{
    let v = y + dy;
    if v < 0 {
        lemma_fundamental_div_mod_converse(v + height, height, 0, height - 1);
        lemma_fundamental_div_mod_converse(height - 1 - dy + height, height, 2, 0);
    } else if v >= height {
        lemma_fundamental_div_mod_converse(v + height, height, 2, 0);
        lemma_fundamental_div_mod_converse(0 - dy + height, height, 0, height - 1);
    } else {
        lemma_fundamental_div_mod_converse(v + height, height, 1, v);
        lemma_fundamental_div_mod_converse(v - dy + height, height, 1, y);
    }
}

/// Facts about slot `i` that streaming relies on.
proof fn lemma_slot_facts(i: int)
    requires
        0 <= i < Q,
    ensures
        0 <= opposite_index(i) < Q,
        opposite_index(opposite_index(i)) == i,
        offset_x(opposite_index(i)) == -offset_x(i),
        offset_y(opposite_index(i)) == -offset_y(i),
        -1 <= offset_x(i) <= 1,
        -1 <= offset_y(i) <= 1,
{
}

/// Streaming moves every distribution to exactly one slot and every slot
/// receives from at most one source: `push_dest` and `pull_source` are inverse
/// to each other, and both stay inside the grid.
pub proof fn lemma_push_pull_inverse(
    solid: Seq<bool>,
    width: int,
    height: int,
    x: int,
    y: int,
    i: int,
)
    requires
        0 <= x < width,
        0 <= y < height,
        0 <= i < Q,
    ensures
        push_dest(solid, width, height, x, y, i) matches Some(t) ==> {
            &&& 0 <= t.0 < width
            &&& 0 <= t.1 < height
            &&& 0 <= t.2 < Q
            &&& pull_source(solid, width, height, t.0, t.1, t.2) == Some((x, y, i))
        },
        pull_source(solid, width, height, x, y, i) matches Some(s) ==> {
            &&& 0 <= s.0 < width
            &&& 0 <= s.1 < height
            &&& 0 <= s.2 < Q
            &&& push_dest(solid, width, height, s.0, s.1, s.2) == Some((x, y, i))
        },
{
    lemma_slot_facts(i);
    lemma_slot_facts(opposite_index(i));
    lemma_wrap_row(y, offset_y(i), height);
    lemma_wrap_row(y, -offset_y(i), height);
}

/// Where slot `i` of cell `(x, y)` streams to, computed.
fn push_target(solid: &[bool], width: usize, height: usize, x: usize, y: usize, i: usize) -> (t:
    Option<(usize, usize, usize)>)
    requires
        solid@.len() == width * height,
        x < width,
        y < height,
        i < Q,
    ensures
        match t {
            Some(t) => push_dest(solid@, width as int, height as int, x as int, y as int, i as int)
                == Some((t.0 as int, t.1 as int, t.2 as int)),
            None => push_dest(solid@, width as int, height as int, x as int, y as int, i as int)
                is None,
        },
{
    let n = solid.len();
    proof {
        lemma_cell_in_grid(x as int, y as int, width as int, height as int);
        assert(y * width + x < n);
    }
    if solid[y * width + x] {
        return None;
    }
    let (dx, dy) = direction_vector(direction_at(i));
    proof {
        lemma_unit_vectors(direction_of(i as int));
        lemma_wrap_row(y as int, dy as int, height as int);
    }
    let nx: usize = if dx > 0 {
        if x + 1 < width {
            x + 1
        } else {
            return None;
        }
    } else if dx < 0 {
        if x == 0 {
            return None;
        } else {
            x - 1
        }
    } else {
        x
    };
    let ny: usize = if dy > 0 {
        if y + 1 == height {
            0
        } else {
            y + 1
        }
    } else if dy < 0 {
        if y == 0 {
            height - 1
        } else {
            y - 1
        }
    } else {
        y
    };
    proof {
        lemma_cell_in_grid(nx as int, ny as int, width as int, height as int);
        assert(ny * width + nx < n);
    }
    if solid[ny * width + nx] {
        Some((x, y, opposite_direction_index(i)))
    } else {
        Some((nx, ny, i))
    }
}

/// Slot `j` of cell `e` once the sources up to slot `ci` of cell `cd` have been pushed.
spec fn pushed_so_far<T>(
    old: Seq<[T; Q]>,
    solid: Seq<bool>,
    width: int,
    height: int,
    zero: T,
    e: int,
    j: int,
    cd: int,
    ci: int,
) -> T {
    match pull_source(solid, width, height, e % width, e / width, j) {
        Some(s) => {
            let src = cell_index(s.0, s.1, width);
            if src < cd || (src == cd && s.2 < ci) {
                slot(old, src, s.2)
            } else {
                zero
            }
        },
        None => zero,
    }
}

/// One push keeps the partial-streaming invariant, advancing it by one source slot.
proof fn lemma_push_step<T>(
    old: Seq<[T; Q]>,
    solid: Seq<bool>,
    width: int,
    height: int,
    zero: T,
    before: Seq<[T; Q]>,
    after: Seq<[T; Q]>,
    d: int,
    i: int,
)
    requires
        0 <= width,
        0 <= height,
        0 <= d < width * height,
        0 <= i < Q,
        before.len() == width * height,
        after.len() == width * height,
        forall|e: int, j: int|
            0 <= e < width * height && 0 <= j < Q ==> #[trigger] slot(before, e, j)
                == pushed_so_far(old, solid, width, height, zero, e, j, d, i),
        match push_dest(solid, width, height, d % width, d / width, i) {
            Some(t) => forall|e: int, j: int|
                0 <= e < width * height && 0 <= j < Q ==> #[trigger] slot(after, e, j) == (if e
                    == cell_index(t.0, t.1, width) && j == t.2 {
                    slot(old, d, i)
                } else {
                    slot(before, e, j)
                }),
            None => after == before,
        },
    ensures
        forall|e: int, j: int|
            0 <= e < width * height && 0 <= j < Q ==> #[trigger] slot(after, e, j)
                == pushed_so_far(old, solid, width, height, zero, e, j, d, i + 1),
{
    lemma_index_coords(d, width, height);
    let x = d % width;
    let y = d / width;
    lemma_push_pull_inverse(solid, width, height, x, y, i);
    assert forall|e: int, j: int| 0 <= e < width * height && 0 <= j < Q implies #[trigger] slot(
        after,
        e,
        j,
    ) == pushed_so_far(old, solid, width, height, zero, e, j, d, i + 1) by {
        lemma_index_coords(e, width, height);
        let ex = e % width;
        let ey = e / width;
        lemma_push_pull_inverse(solid, width, height, ex, ey, j);
        assert(slot(before, e, j) == pushed_so_far(old, solid, width, height, zero, e, j, d, i));
        match pull_source(solid, width, height, ex, ey, j) {
            Some(s) => {
                lemma_cell_coords(s.0, s.1, width);
                lemma_cell_coords(x, y, width);
                if s == (x, y, i) {
                    let t = push_dest(solid, width, height, x, y, i).unwrap();
                    assert(t == (ex, ey, j));
                } else {
                    if cell_index(s.0, s.1, width) == d {
                        assert(s.0 == x && s.1 == y);
                    }
                    match push_dest(solid, width, height, x, y, i) {
                        Some(t) => {
                            lemma_cell_coords(t.0, t.1, width);
                            if e == cell_index(t.0, t.1, width) && j == t.2 {
                                assert(t.0 == ex && t.1 == ey);
                            }
                        },
                        None => {},
                    }
                }
            },
            None => {
                match push_dest(solid, width, height, x, y, i) {
                    Some(t) => {
                        lemma_cell_coords(t.0, t.1, width);
                        if e == cell_index(t.0, t.1, width) && j == t.2 {
                            assert(t.0 == ex && t.1 == ey);
                        }
                    },
                    None => {},
                }
            },
        }
    }
}

/// Streams every distribution of `grid_old` one cell along its direction.
/// The grid is `width` cells wide and `height` cells tall, stored row by row;
/// `zero` is the value of a slot that receives nothing.
pub fn stream_periodic<T: Copy>(
    grid_old: &[[T; Q]],
    solid: &[bool],
    width: usize,
    height: usize,
    zero: T,
) -> (grid_new: Vec<[T; Q]>)
    requires
        grid_old@.len() == width * height,
        solid@.len() == width * height,
    ensures
        streams_to(grid_old@, solid@, width as int, height as int, zero, grid_new@),
{
    let n = grid_old.len();
    let empty: [T; Q] = [zero; Q];
    let mut grid_new: Vec<[T; Q]> = Vec::new();
    let mut k: usize = 0;
    while k < n
        invariant
            k <= n,
            grid_new@.len() == k,
            forall|e: int| 0 <= e < k ==> #[trigger] grid_new@[e] == empty,
        decreases n - k,
    {
        grid_new.push(empty);
        k += 1;
    }
    let ghost w = width as int;
    let ghost h = height as int;
    assert forall|e: int, j: int| 0 <= e < n && 0 <= j < Q implies #[trigger] slot(grid_new@, e, j)
        == pushed_so_far(grid_old@, solid@, w, h, zero, e, j, 0, 0) by {
        lemma_index_coords(e, w, h);
        lemma_push_pull_inverse(solid@, w, h, e % w, e / w, j);
        assert(grid_new@[e] == empty);
        match pull_source(solid@, w, h, e % w, e / w, j) {
            Some(s) => {
                lemma_cell_in_grid(s.0, s.1, w, h);
            },
            None => {},
        }
    }
    let mut d: usize = 0;
    while d < n
        invariant
            n == grid_old@.len(),
            n == width * height,
            solid@.len() == n,
            d <= n,
            grid_new@.len() == n,
            w == width as int,
            h == height as int,
            forall|e: int, j: int|
                0 <= e < n && 0 <= j < Q ==> #[trigger] slot(grid_new@, e, j) == pushed_so_far(
                    grid_old@,
                    solid@,
                    w,
                    h,
                    zero,
                    e,
                    j,
                    d as int,
                    0,
                ),
        decreases n - d,
    {
        proof {
            lemma_index_coords(d as int, w, h);
        }
        let x = d % width;
        let y = d / width;
        let cell = grid_old[d];
        let mut i: usize = 0;
        while i < Q
            invariant
                n == grid_old@.len(),
                n == width * height,
                solid@.len() == n,
                d < n,
                i <= Q,
                x as int == d as int % w,
                y as int == d as int / w,
                x < width,
                y < height,
                cell == grid_old@[d as int],
                grid_new@.len() == n,
                w == width as int,
                h == height as int,
                forall|e: int, j: int|
                    0 <= e < n && 0 <= j < Q ==> #[trigger] slot(grid_new@, e, j) == pushed_so_far(
                        grid_old@,
                        solid@,
                        w,
                        h,
                        zero,
                        e,
                        j,
                        d as int,
                        i as int,
                    ),
            decreases Q - i,
        {
            let ghost before = grid_new@;
            match push_target(solid, width, height, x, y, i) {
                Some((tx, ty, j)) => {
                    proof {
                        lemma_push_pull_inverse(solid@, w, h, x as int, y as int, i as int);
                        lemma_cell_in_grid(tx as int, ty as int, w, h);
                    }
                    let t = ty * width + tx;
                    let mut c = grid_new[t];
                    c[j] = cell[i];
                    grid_new.set(t, c);
                    assert forall|e: int, jj: int| 0 <= e < n && 0 <= jj < Q implies #[trigger] slot(
                        grid_new@,
                        e,
                        jj,
                    ) == (if e == cell_index(tx as int, ty as int, w) && jj == j as int {
                        slot(grid_old@, d as int, i as int)
                    } else {
                        slot(before, e, jj)
                    }) by {}
                },
                None => {},
            }
            proof {
                lemma_push_step(grid_old@, solid@, w, h, zero, before, grid_new@, d as int, i as int);
            }
            i += 1;
        }
        assert forall|e: int, j: int| 0 <= e < n && 0 <= j < Q implies #[trigger] slot(
            grid_new@,
            e,
            j,
        ) == pushed_so_far(grid_old@, solid@, w, h, zero, e, j, d + 1, 0) by {
            lemma_index_coords(e, w, h);
            lemma_push_pull_inverse(solid@, w, h, e % w, e / w, j);
            assert(slot(grid_new@, e, j) == pushed_so_far(
                grid_old@,
                solid@,
                w,
                h,
                zero,
                e,
                j,
                d as int,
                Q as int,
            ));
        }
        d += 1;
    }
    assert forall|x: int, y: int, j: int|
        0 <= x < w && 0 <= y < h && 0 <= j < Q implies #[trigger] slot(
        grid_new@,
        cell_index(x, y, w),
        j,
    ) == streamed_value(grid_old@, solid@, w, h, x, y, j, zero) by {
        lemma_cell_in_grid(x, y, w, h);
        lemma_cell_coords(x, y, w);
        lemma_push_pull_inverse(solid@, w, h, x, y, j);
        let e = cell_index(x, y, w);
        assert(slot(grid_new@, e, j) == pushed_so_far(grid_old@, solid@, w, h, zero, e, j, n as int, 0));
        match pull_source(solid@, w, h, x, y, j) {
            Some(s) => {
                lemma_cell_in_grid(s.0, s.1, w, h);
            },
            None => {},
        }
    }
    grid_new
}

} // verus!
