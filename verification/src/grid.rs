//! The geometry of a rectangular grid stored row by row, and counting.

use vstd::prelude::*;

verus! {

/// The largest width or height of a board.
pub const MAX_SIDE: usize = 256;

/// Where cell `(x, y)` lies in a grid stored row by row.
pub open spec fn cell_index(width: int, x: int, y: int) -> int {
    y * width + x
}

/// `(x, y)` is a cell of a grid of the given size.
pub open spec fn in_grid(width: int, height: int, x: int, y: int) -> bool {
    0 <= x < width && 0 <= y < height
}

/// Two different cells that touch, by an edge or by a corner.
pub open spec fn adjacent(x1: int, y1: int, x2: int, y2: int) -> bool {
    &&& -1 <= x1 - x2 <= 1
    &&& -1 <= y1 - y2 <= 1
    &&& (x1 != x2 || y1 != y2)
}

/// A grid with sides in range has at most `MAX_SIDE * MAX_SIDE` cells.
pub proof fn lemma_area_bound(width: int, height: int)
    requires
        0 <= width <= MAX_SIDE,
        0 <= height <= MAX_SIDE,
    ensures
        0 <= width * height <= 0x10000,
{
    assert(0 <= width * height <= 256 * 256) by (nonlinear_arith)
        requires
            0 <= width <= 256,
            0 <= height <= 256,
    ;
}

/// A cell of the grid has an index inside the grid's storage.
pub proof fn lemma_cell_index_bounds(width: int, height: int, x: int, y: int)
    requires
        in_grid(width, height, x, y),
    ensures
        0 <= y * width,
        0 <= cell_index(width, x, y) < width * height,
{
    assert(y * width >= 0) by (nonlinear_arith)
        requires
            y >= 0,
            width > 0,
    ;
    assert(y * width + width <= height * width) by (nonlinear_arith)
        requires
            y + 1 <= height,
            width > 0,
    ;
    assert(height * width == width * height) by (nonlinear_arith);
}

/// Different cells of a row-major grid have different indices.
pub proof fn lemma_cell_index_injective(width: int, x1: int, y1: int, x2: int, y2: int)
    requires
        0 <= x1 < width,
        0 <= x2 < width,
        cell_index(width, x1, y1) == cell_index(width, x2, y2),
    ensures
        x1 == x2,
        y1 == y2,
{
    if y1 < y2 {
        assert(y1 * width + width <= y2 * width) by (nonlinear_arith)
            requires
                y1 + 1 <= y2,
                width > 0,
        ;
    } else if y2 < y1 {
        assert(y2 * width + width <= y1 * width) by (nonlinear_arith)
            requires
                y2 + 1 <= y1,
                width > 0,
        ;
    }
}

/// Every index of the storage is the index of the cell in column
/// `i % width` of row `i / width`.
pub proof fn lemma_index_cell(width: int, height: int, i: int)
    requires
        0 < width,
        0 <= i < width * height,
    ensures
        in_grid(width, height, i % width, i / width),
        cell_index(width, i % width, i / width) == i,
{
    let q = i / width;
    let r = i % width;
    assert(i == q * width + r && 0 <= r < width) by (nonlinear_arith)
        requires
            q == i / width,
            r == i % width,
            width > 0,
    ;
    assert(q >= 0) by (nonlinear_arith)
        requires
            q == i / width,
            i >= 0,
            width > 0,
    ;
    if q >= height {
        assert(q * width >= height * width) by (nonlinear_arith)
            requires
                q >= height,
                width > 0,
        ;
        assert(height * width == width * height) by (nonlinear_arith);
    }
}

/// The index of a cell gives the cell back.
pub proof fn lemma_cell_of_index(width: int, height: int, x: int, y: int)
    requires
        in_grid(width, height, x, y),
    ensures
        0 <= cell_index(width, x, y) < width * height,
        cell_index(width, x, y) % width == x,
        cell_index(width, x, y) / width == y,
{
    lemma_cell_index_bounds(width, height, x, y);
    let i = cell_index(width, x, y);
    lemma_index_cell(width, height, i);
    lemma_cell_index_injective(width, i % width, i / width, x, y);
}

/// How many entries of `s` are true.
pub open spec fn count_true(s: Seq<bool>) -> nat
    decreases s.len(),
{
    if s.len() == 0 {
        0
    } else {
        count_true(s.drop_last()) + if s.last() {
            1nat
        } else {
            0nat
        }
    }
}

/// A sequence without a true entry counts zero, and one that counts zero
/// has no true entry.
pub proof fn lemma_count_zero(s: Seq<bool>)
    ensures
        count_true(s) == 0 <==> (forall|i: int| 0 <= i < s.len() ==> !s[i]),
    decreases s.len(),
{
    if s.len() > 0 {
        let t = s.drop_last();
        lemma_count_zero(t);
        if count_true(s) == 0 {
            assert forall|i: int| 0 <= i < s.len() implies !s[i] by {
                if i < t.len() {
                    assert(t[i] == s[i]);
                }
            }
        }
        if forall|i: int| 0 <= i < s.len() ==> !s[i] {
            assert forall|i: int| 0 <= i < t.len() implies !t[i] by {
                assert(t[i] == s[i]);
            }
        }
    }
}

/// A sequence whose entries are all true counts its length.
pub proof fn lemma_count_all(s: Seq<bool>)
    requires
        forall|i: int| 0 <= i < s.len() ==> s[i],
    ensures
        count_true(s) == s.len(),
    decreases s.len(),
{
    if s.len() > 0 {
        let t = s.drop_last();
        assert forall|i: int| 0 <= i < t.len() implies t[i] by {
            assert(t[i] == s[i]);
        }
        lemma_count_all(t);
    }
}

/// Changing one entry changes the count by that entry alone.
pub proof fn lemma_count_update(s: Seq<bool>, i: int, b: bool)
    requires
        0 <= i < s.len(),
    ensures
        count_true(s.update(i, b)) + (if s[i] {
            1nat
        } else {
            0nat
        }) == count_true(s) + (if b {
            1nat
        } else {
            0nat
        }),
    decreases s.len(),
{
    let u = s.update(i, b);
    if i == s.len() - 1 {
        assert(u.drop_last() =~= s.drop_last());
    } else {
        assert(u.drop_last() =~= s.drop_last().update(i, b));
        lemma_count_update(s.drop_last(), i, b);
    }
}

/// Two sequences that are never true at the same place count together no
/// more than their length.
pub proof fn lemma_count_disjoint(a: Seq<bool>, b: Seq<bool>)
    requires
        a.len() == b.len(),
        forall|i: int| 0 <= i < a.len() ==> !(a[i] && b[i]),
    ensures
        count_true(a) + count_true(b) <= a.len(),
    decreases a.len(),
{
    if a.len() > 0 {
        let a1 = a.drop_last();
        let b1 = b.drop_last();
        assert forall|i: int| 0 <= i < a1.len() implies !(a1[i] && b1[i]) by {
            assert(a1[i] == a[i] && b1[i] == b[i]);
        }
        lemma_count_disjoint(a1, b1);
    }
}

/// Where at every place one of two sequences is true, they count together
/// at least their length.
pub proof fn lemma_count_cover(a: Seq<bool>, b: Seq<bool>)
    requires
        a.len() == b.len(),
        forall|i: int| 0 <= i < a.len() ==> a[i] || b[i],
    ensures
        count_true(a) + count_true(b) >= a.len(),
    decreases a.len(),
{
    if a.len() > 0 {
        let a1 = a.drop_last();
        let b1 = b.drop_last();
        assert forall|i: int| 0 <= i < a1.len() implies a1[i] || b1[i] by {
            assert(a1[i] == a[i] && b1[i] == b[i]);
        }
        lemma_count_cover(a1, b1);
    }
}

/// Where every true entry has its index in a finite set, no more entries
/// are true than the set has members.
pub proof fn lemma_count_within(s: Seq<bool>, allowed: Set<int>)
    requires
        allowed.finite(),
        forall|i: int| 0 <= i < s.len() && s[i] ==> allowed.contains(i),
    ensures
        count_true(s) <= allowed.len(),
    decreases s.len(),
{
    if s.len() > 0 {
        let t = s.drop_last();
        let last = s.len() - 1;
        let rest = allowed.remove(last);
        assert forall|i: int| 0 <= i < t.len() && t[i] implies rest.contains(i) by {
            assert(t[i] == s[i]);
        }
        lemma_count_within(t, rest);
    }
}

/// The cells of the grid that touch `(x, y)`, each once.
pub fn neighbours(x: usize, y: usize, width: usize, height: usize) -> (cells: Vec<(usize, usize)>)
    requires
        in_grid(width as int, height as int, x as int, y as int),
    ensures
        cells.len() <= 8,
        forall|i: int|
            0 <= i < cells.len() ==> in_grid(
                width as int,
                height as int,
                (#[trigger] cells[i]).0 as int,
                cells[i].1 as int,
            ) && adjacent(cells[i].0 as int, cells[i].1 as int, x as int, y as int),
        forall|i: int, j: int| 0 <= i < j < cells.len() ==> cells[i] != cells[j],
        forall|u: usize, v: usize|
            in_grid(width as int, height as int, u as int, v as int) && adjacent(
                u as int,
                v as int,
                x as int,
                y as int,
            ) ==> cells@.contains((u, v)),
{
    let mut cells: Vec<(usize, usize)> = Vec::new();
    let left: bool = x > 0;
    let right: bool = x + 1 < width;
    let up: bool = y > 0;
    let down: bool = y + 1 < height;
    let ghost at_up_left = cells.len();
    if up && left {
        cells.push((x - 1, y - 1));
    }
    let ghost at_up = cells.len();
    if up {
        cells.push((x, y - 1));
    }
    let ghost at_up_right = cells.len();
    if up && right {
        cells.push((x + 1, y - 1));
    }
    let ghost at_left = cells.len();
    if left {
        cells.push((x - 1, y));
    }
    let ghost at_right = cells.len();
    if right {
        cells.push((x + 1, y));
    }
    let ghost at_down_left = cells.len();
    if down && left {
        cells.push((x - 1, y + 1));
    }
    let ghost at_down = cells.len();
    if down {
        cells.push((x, y + 1));
    }
    let ghost at_down_right = cells.len();
    if down && right {
        cells.push((x + 1, y + 1));
    }
    proof {
        assert forall|u: usize, v: usize|
            in_grid(width as int, height as int, u as int, v as int) && adjacent(
                u as int,
                v as int,
                x as int,
                y as int,
            ) implies cells@.contains((u, v)) by {
            let k: int = if v < y {
                if u < x {
                    at_up_left as int
                } else if u == x {
                    at_up as int
                } else {
                    at_up_right as int
                }
            } else if v == y {
                if u < x {
                    at_left as int
                } else {
                    at_right as int
                }
            } else {
                if u < x {
                    at_down_left as int
                } else if u == x {
                    at_down as int
                } else {
                    at_down_right as int
                }
            };
            assert(0 <= k < cells.len() && cells[k] == (u, v));
        }
    }
    cells
}

} // verus!
