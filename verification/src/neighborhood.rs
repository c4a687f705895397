//! What surrounds a coordinate, stated over the occupancy mapping alone: the
//! neighbors of a cell, how many of them have no owner, the blocking score,
//! and which cells are constrained opponent cells.

use crate::anfield::Ceil;
use vstd::prelude::*;

verus! {

/// The mark that `marks` holds for `(x, y)`, if any.
pub open spec fn mark_at(marks: Map<(i32, i32), i32>, x: int, y: int) -> Option<i32> {
    if i32::MIN <= x <= i32::MAX && i32::MIN <= y <= i32::MAX && marks.contains_key(
        (x as i32, y as i32),
    ) {
        Some(marks[(x as i32, y as i32)])
    } else {
        None
    }
}

/// The nine coordinates of the 3 by 3 window centerd on `(x, y)`, row by row,
/// the center among them.
pub open spec fn window(x: int, y: int) -> Seq<(int, int)> {
    Seq::new(9, |k: int| (x + k % 3 - 1, y + k / 3 - 1))
}

/// Whether `marks` has an entry for a coordinate.
pub open spec fn is_marked(marks: Map<(i32, i32), i32>) -> spec_fn((int, int)) -> bool {
    |c: (int, int)| mark_at(marks, c.0, c.1) is Some
}

/// The cell that `marks` describes at a coordinate.
pub open spec fn cell_at(marks: Map<(i32, i32), i32>) -> spec_fn((int, int)) -> Ceil {
    |c: (int, int)|
        Ceil { x: c.0 as i32, y: c.1 as i32, occupied_by: mark_at(marks, c.0, c.1).unwrap() }
}

/// The cells of the entries that `marks` has among `coords`, in the order of
/// `coords`.
pub open spec fn marked_cells(marks: Map<(i32, i32), i32>, coords: Seq<(int, int)>) -> Seq<Ceil> {
    coords.filter(is_marked(marks)).map_values(cell_at(marks))
}

/// The neighbors of `(x, y)`: the cells of the window around it that have an
/// entry in `marks`, in window order. A coordinate without an entry is no
/// neighbor; the center is one if it has an entry.
pub open spec fn neighbors(marks: Map<(i32, i32), i32>, x: int, y: int) -> Seq<Ceil> {
    marked_cells(marks, window(x, y))
}

/// Whether a cell has no owner.
pub open spec fn is_unowned() -> spec_fn(Ceil) -> bool {
    |cell: Ceil| cell.occupied_by == 0
}

/// The cells among `cells` that have no owner.
pub open spec fn unowned(cells: Seq<Ceil>) -> Seq<Ceil> {
    cells.filter(is_unowned())
}

/// The empty-neighbor count of `(x, y)`: how many of its neighbors have no
/// owner. Only coordinates with an entry are neighbors, so this counts the
/// entries around `(x, y)` that carry the id 0.
pub open spec fn empty_neighbors(marks: Map<(i32, i32), i32>, x: int, y: int) -> nat {
    unowned(neighbors(marks, x, y)).len()
}

/// What the neighbor `near` adds to the blocking score of a cell owned by
/// `owner`: nothing if `near` has no owner or the same owner, else 20 times
/// its empty-neighbor count, divided by 8 and truncated.
pub open spec fn blocking_share(marks: Map<(i32, i32), i32>, owner: i32, near: Ceil) -> int {
    if near.occupied_by != owner && near.occupied_by != 0 {
        20 * (empty_neighbors(marks, near.x as int, near.y as int) as int) / 8
    } else {
        0
    }
}

/// The sum of the shares of `cells`.
pub open spec fn blocking_sum(marks: Map<(i32, i32), i32>, owner: i32, cells: Seq<Ceil>) -> int
    decreases cells.len(),
{
    if cells.len() == 0 {
        0
    } else {
        blocking_sum(marks, owner, cells.drop_last()) + blocking_share(marks, owner, cells.last())
    }
}

/// A constrained opponent cell as the player `id` sees it: `cell` is an entry
/// of `marks`, its owner is neither 0 nor `id`, and more than two of its
/// neighbors have no owner.
pub open spec fn is_constrained_opponent(marks: Map<(i32, i32), i32>, cell: Ceil, id: i32) -> bool {
    &&& marks.contains_key((cell.x, cell.y))
    &&& marks[(cell.x, cell.y)] == cell.occupied_by
    &&& cell.occupied_by != 0
    &&& cell.occupied_by != id
    &&& empty_neighbors(marks, cell.x as int, cell.y as int) > 2
}

/// Looking at one more coordinate adds its cell if it has an entry, and
/// nothing otherwise.
pub proof fn lemma_marked_cells_push(
    marks: Map<(i32, i32), i32>,
    coords: Seq<(int, int)>,
    c: (int, int),
)
    ensures
        marked_cells(marks, coords.push(c)) == if mark_at(marks, c.0, c.1) is Some {
            marked_cells(marks, coords).push(cell_at(marks)(c))
        } else {
            marked_cells(marks, coords)
        },
{
    coords.lemma_filter_push(c, is_marked(marks));
    if mark_at(marks, c.0, c.1) is Some {
        coords.filter(is_marked(marks)).lemma_push_map_commute(cell_at(marks), c);
    }
}

/// A cell has at most nine neighbors.
pub proof fn lemma_neighbors_len(marks: Map<(i32, i32), i32>, x: int, y: int)
    ensures
        neighbors(marks, x, y).len() <= 9,
        empty_neighbors(marks, x, y) <= 9,
{
    window(x, y).lemma_filter_len(is_marked(marks));
    neighbors(marks, x, y).lemma_filter_len(is_unowned());
}

/// Every neighbor of `(x, y)` is an entry of `marks` at most one step away
/// from `(x, y)`.
pub proof fn lemma_neighbors_are_marked(marks: Map<(i32, i32), i32>, x: int, y: int, k: int)
    requires
        0 <= k < neighbors(marks, x, y).len(),
    ensures
        ({
            let near = neighbors(marks, x, y)[k];
            &&& marks.contains_key((near.x, near.y))
            &&& marks[(near.x, near.y)] == near.occupied_by
            &&& x - 1 <= near.x <= x + 1
            &&& y - 1 <= near.y <= y + 1
        }),
{
    let kept = window(x, y).filter(is_marked(marks));
    window(x, y).lemma_filter_pred(is_marked(marks), k);
    assert(window(x, y).contains(kept[k])) by {
        window(x, y).lemma_filter_contains_rev(is_marked(marks), kept[k]);
    }
}

/// Every entry of `marks` at most one step away from `(x, y)` is a neighbor
/// of `(x, y)`.
pub proof fn lemma_marked_nearby_is_neighbor(
    marks: Map<(i32, i32), i32>,
    x: int,
    y: int,
    near: Ceil,
)
    requires
        marks.contains_key((near.x, near.y)),
        marks[(near.x, near.y)] == near.occupied_by,
        x - 1 <= near.x <= x + 1,
        y - 1 <= near.y <= y + 1,
    ensures
        neighbors(marks, x, y).contains(near),
{
    let at = (near.x as int, near.y as int);
    let k = (near.y - y + 1) * 3 + (near.x - x + 1);
    window(x, y).lemma_filter_contains(is_marked(marks), k);
    let kept = window(x, y).filter(is_marked(marks));
    let n = choose|n: int| 0 <= n < kept.len() && kept[n] == at;
    assert(neighbors(marks, x, y)[n] == near);
}

/// Where no coordinate of the window around `(x, y)` has an entry, `(x, y)`
/// has no neighbors.
pub proof fn lemma_unmarked_window_has_no_neighbors(marks: Map<(i32, i32), i32>, x: int, y: int)
    requires
        forall|u: int, v: int|
            x - 1 <= u <= x + 1 && y - 1 <= v <= y + 1 ==> #[trigger] mark_at(marks, u, v) is None,
    ensures
        neighbors(marks, x, y) == Seq::<Ceil>::empty(),
{
    let kept = window(x, y).filter(is_marked(marks));
    if kept.len() > 0 {
        window(x, y).lemma_filter_pred(is_marked(marks), 0);
        window(x, y).lemma_filter_contains_rev(is_marked(marks), kept[0]);
    }
}

} // verus!
