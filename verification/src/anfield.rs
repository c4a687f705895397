//! The board and its cells: who occupies what, what surrounds a cell, whether
//! a piece may be set down at a coordinate, and where it may be set down at
//! all.

use crate::neighborhood::{
    blocking_sum, empty_neighbors, is_constrained_opponent, is_unowned, lemma_marked_cells_push,
    lemma_neighbors_len, marked_cells, neighbors, unowned, window,
};
use crate::occupation::Occupation;
use crate::piece::{Piece, Position, Robot};
use crate::placement::BoardView;
use crate::scan::scan_rows;
use vstd::prelude::*;

verus! {

/// The board: its bounds `[0, width) x [0, height)`, the occupancy mapping,
/// and the constrained opponent cells as they were last recomputed.
#[derive(Debug)]
pub struct Anfield {
    pub width: i32,
    pub height: i32,
    pub occupation: Occupation,
    pub opp_occupation: Vec<Ceil>,
}

/// A cell: a coordinate and the id of its owner, 0 for none. A cell is a
/// value of its own; it holds no part of a board.
#[derive(Debug, Clone, Copy, PartialEq, Eq, Structural)]
pub struct Ceil {
    pub x: i32,
    pub y: i32,
    pub occupied_by: i32,
}

/// The cell that an entry of the occupancy mapping describes.
pub open spec fn entry_cell(entry: ((i32, i32), i32)) -> Ceil {
    Ceil { x: entry.0.0, y: entry.0.1, occupied_by: entry.1 }
}

/// How many of `cells` have no owner.
fn count_unowned(cells: &Vec<Ceil>) -> (count: usize)
    ensures
        count == unowned(cells@).len(),
{
    let mut count: usize = 0;
    let mut k: usize = 0;
    proof {
        reveal(Seq::filter);
    }
    while k < cells.len()
        invariant
            k <= cells.len(),
            count == unowned(cells@.take(k as int)).len(),
            count <= k,
        decreases cells.len() - k,
    {
        proof {
            cells@.lemma_take_succ_push(k as int);
            cells@.take(k as int).lemma_filter_push(cells@[k as int], is_unowned());
        }
        if cells[k].occupied_by == 0 {
            count += 1;
        }
        k += 1;
    }
    proof {
        assert(cells@.take(cells.len() as int) =~= cells@);
    }
    count
}

impl Anfield {
    /// An empty board of the given dimensions.
    pub fn new(width: i32, height: i32) -> (board: Self)
        ensures
            board@ == (BoardView {
                width: width as int,
                height: height as int,
                marks: Map::<(i32, i32), i32>::empty(),
            }),
            board.opp_occupation@ == Seq::<Ceil>::empty(),
            0 < width && 0 < height ==> board@.wf(),
    {
        Self { width, height, occupation: Occupation::new(), opp_occupation: Vec::new() }
    }

    /// Recomputes the constrained opponent cells for `robot` from the
    /// occupancy mapping, which stays as it is. The cells come in no
    /// particular order.
    pub fn update_opp_occupation(&mut self, robot: &Robot)
        ensures
            final(self)@ == old(self)@,
            final(self).opp_occupation@.no_duplicates(),
            forall|cell: Ceil|
                final(self).opp_occupation@.contains(cell) <==> is_constrained_opponent(
                    old(self)@.marks,
                    cell,
                    robot.id,
                ),
            forall|k: int|
                0 <= k < final(self).opp_occupation@.len() ==> {
                    let cell = #[trigger] final(self).opp_occupation@[k];
                    &&& cell.occupied_by != 0
                    &&& cell.occupied_by != robot.id
                    &&& empty_neighbors(old(self)@.marks, cell.x as int, cell.y as int) > 2
                },
    {
        let ghost marks = self.occupation@;
        let entries = self.occupation.entries();
        let mut constrained: Vec<Ceil> = Vec::new();
        let mut k: usize = 0;
        while k < entries.len()
            invariant
                k <= entries.len(),
                *self == *old(self),
                marks == self.occupation@,
                entries@.no_duplicates(),
                forall|c: (i32, i32), id: i32|
                    entries@.contains((c, id)) <==> marks.contains_key(c) && marks[c] == id,
                forall|a: int|
                    0 <= a < constrained@.len() ==> is_constrained_opponent(
                        marks,
                        #[trigger] constrained@[a],
                        robot.id,
                    ) && exists|e: int|
                        0 <= e < k && entry_cell(#[trigger] entries@[e]) == constrained@[a],
                forall|e: int|
                    0 <= e < k && is_constrained_opponent(
                        marks,
                        entry_cell(#[trigger] entries@[e]),
                        robot.id,
                    ) ==> constrained@.contains(entry_cell(entries@[e])),
                constrained@.no_duplicates(),
            decreases entries.len() - k,
        {
            let ((x, y), id) = entries[k];
            let ceil = Ceil::new(x, y, id);
            let n = ceil.get_neightboor(self);
            let c = count_unowned(&n);
            proof {
                assert(entries@.contains(entries@[k as int]));
            }
            if c > 2 && (id != robot.id && id != 0) {
                let ghost kept = constrained@;
                constrained.push(ceil);
                proof {
                    assert(constrained@[kept.len() as int] == ceil);
                    assert forall|e: int|
                        0 <= e < k + 1 && is_constrained_opponent(
                            marks,
                            entry_cell(#[trigger] entries@[e]),
                            robot.id,
                        ) implies constrained@.contains(entry_cell(entries@[e])) by {
                        if e < k {
                            let a = choose|a: int|
                                0 <= a < kept.len() && kept[a] == entry_cell(entries@[e]);
                            assert(constrained@[a] == kept[a]);
                        }
                    }
                }
            }
            k += 1;
        }
        proof {
            assert forall|cell: Ceil|
                is_constrained_opponent(marks, cell, robot.id) implies constrained@.contains(
                cell,
            ) by {
                assert(entries@.contains(((cell.x, cell.y), cell.occupied_by)));
            }
        }
        self.opp_occupation = constrained;
    }

    /// Whether `robot` may set `piece` down with the top-left cell of its
    /// footprint at `coord`: no filled cell of the footprint falls off the
    /// board, none lands on a cell marked for another player, and exactly
    /// one lands on a cell marked for `robot`. Cells marked with 0 and the
    /// empty cells of the footprint place no constraint.
    pub fn can_place(&self, coord: (i32, i32), robot: &Robot, piece: &Piece) -> (ok: bool)
        requires
            piece@.wf(),
        ensures
            ok == self@.legal(coord, robot.id, piece@),
            self@.overflows(coord, piece@) ==> !ok,
            self@.collides(coord, robot.id, piece@) ==> !ok,
            ok ==> self@.touch_count(coord, robot.id, piece@) == 1,
            !self@.overflows(coord, piece@) && !self@.collides(coord, robot.id, piece@) ==> (ok
                <==> self@.touch_count(coord, robot.id, piece@) == 1),
    {
        let ghost shape = piece@;
        let ghost id = robot.id;
        let mut touch: u64 = 0;
        let mut i: i32 = 0;
        proof {
            assert(self@.touched_before(coord, id, shape, 0, 0) =~= Set::<(int, int)>::empty());
        }
        while i < piece.height
            invariant
                0 <= i,
                i <= piece.height || i == 0,
                shape == piece@,
                id == robot.id,
                shape.wf(),
                forall|r: int, c: int| r < i ==> !#[trigger] self@.sticks_out(coord, shape, r, c),
                forall|r: int, c: int|
                    r < i ==> !#[trigger] self@.hits_other(coord, id, shape, r, c),
                self@.touched_before(coord, id, shape, i as int, 0).finite(),
                touch == self@.touched_before(coord, id, shape, i as int, 0).len(),
                touch <= i * 0x8000_0000,
            decreases piece.height - i,
        {
            let mut j: i32 = 0;
            while j < piece.width
                invariant
                    0 <= i < piece.height,
                    0 <= j,
                    j <= piece.width || j == 0,
                    shape == piece@,
                    id == robot.id,
                    shape.wf(),
                    forall|r: int, c: int|
                        r < i || (r == i && c < j) ==> !#[trigger] self@.sticks_out(
                            coord,
                            shape,
                            r,
                            c,
                        ),
                    forall|r: int, c: int|
                        r < i || (r == i && c < j) ==> !#[trigger] self@.hits_other(
                            coord,
                            id,
                            shape,
                            r,
                            c,
                        ),
                    self@.touched_before(coord, id, shape, i as int, j as int).finite(),
                    touch == self@.touched_before(coord, id, shape, i as int, j as int).len(),
                    touch <= i * 0x8000_0000 + j,
                decreases piece.width - j,
            {
                let ghost before = self@.touched_before(coord, id, shape, i as int, j as int);
                let ghost after = self@.touched_before(coord, id, shape, i as int, j + 1);
                if piece.is_filled(i, j) {
                    let x: i64 = coord.0 as i64 + j as i64;
                    let y: i64 = coord.1 as i64 + i as i64;
                    if x < 0 || x >= self.width as i64 || y < 0 || y >= self.height as i64 {
                        assert(self@.sticks_out(coord, shape, i as int, j as int));
                        return false;
                    }
                    if let Some(owner) = self.occupation.get((x as i32, y as i32)) {
                        if owner == robot.id {
                            assert(after =~= before.insert((i as int, j as int)));
                            touch += 1;
                        } else if owner != 0 {
                            assert(self@.hits_other(coord, id, shape, i as int, j as int));
                            return false;
                        } else {
                            assert(after =~= before);
                        }
                    } else {
                        assert(after =~= before);
                    }
                } else {
                    assert(after =~= before);
                }
                j += 1;
            }
            proof {
                assert(self@.touched_before(coord, id, shape, i as int, j as int)
                    =~= self@.touched_before(coord, id, shape, i + 1, 0));
            }
            i += 1;
        }
        proof {
            assert(self@.touched_before(coord, id, shape, i as int, 0) =~= self@.touching_cells(
                coord,
                id,
                shape,
            ));
        }
        touch == 1
    }

    /// The columns of row `y` at which `robot` may set `piece` down, found by
    /// trying each column of the board once, in rising order.
    pub fn legal_columns(&self, y: i32, robot: &Robot, piece: &Piece) -> (xs: Vec<i32>)
        requires
            piece@.wf(),
        ensures
            self@.is_row_scan(y, robot.id, piece@, xs@),
    {
        let mut xs: Vec<i32> = Vec::new();
        let mut x: i32 = 0;
        while x < self.width
            invariant
                0 <= x,
                x <= self.width || x == 0,
                piece@.wf(),
                forall|k: int|
                    0 <= k < xs@.len() ==> 0 <= #[trigger] xs@[k] < x && self@.legal(
                        (xs@[k], y),
                        robot.id,
                        piece@,
                    ),
                forall|c: i32|
                    0 <= c < x && #[trigger] self@.legal((c, y), robot.id, piece@) ==> xs@.contains(
                        c,
                    ),
                forall|a: int, b: int|
                    0 <= a < b < xs@.len() ==> #[trigger] xs@[a] < #[trigger] xs@[b],
            decreases self.width - x,
        {
            if self.can_place((x, y), robot, piece) {
                let ghost found = xs@;
                xs.push(x);
                proof {
                    assert(xs@[found.len() as int] == x);
                    assert forall|c: i32|
                        0 <= c < x + 1 && #[trigger] self@.legal(
                            (c, y),
                            robot.id,
                            piece@,
                        ) implies xs@.contains(c) by {
                        if c < x {
                            let k = choose|k: int| 0 <= k < found.len() && found[k] == c;
                            assert(xs@[k] == c);
                        }
                    }
                }
            }
            x += 1;
        }
        xs
    }

    /// Every legal placement of `piece` for `robot` on this board, found by
    /// trying each coordinate of the board once. The placements come row by
    /// row, and in a row by column. Where none is legal the result is empty.
    pub fn potential_positions(&self, piece: &Piece, robot: &Robot) -> (positions: Vec<Position>)
        requires
            piece@.wf(),
        ensures
            forall|k: int|
                0 <= k < positions@.len() ==> self@.is_legal_position(
                    #[trigger] positions@[k],
                    robot.id,
                    piece@,
                ),
            forall|x: i32, y: i32|
                self@.in_bounds(x as int, y as int) && #[trigger] self@.legal(
                    (x, y),
                    robot.id,
                    piece@,
                ) ==> exists|k: int|
                    0 <= k < positions@.len() && (#[trigger] positions@[k]).x == x
                        && positions@[k].y == y,
            forall|a: int, b: int|
                #![trigger positions@[a], positions@[b]]
                0 <= a < b < positions@.len() ==> positions@[a].lies_before(
                    positions@[b].x as int,
                    positions@[b].y as int,
                ),
    {
        let rows = scan_rows(self, robot, piece);
        let mut positions: Vec<Position> = Vec::new();
        let mut y: i32 = 0;
        while y < self.height
            invariant
                0 <= y,
                y <= self.height || y == 0,
                rows@.len() == if 0 < self.height { self.height as int } else { 0 },
                forall|r: int|
                    0 <= r < rows@.len() ==> self@.is_row_scan(
                        r as i32,
                        robot.id,
                        piece@,
                        (#[trigger] rows@[r])@,
                    ),
                self@.is_scan_before(robot.id, piece@, 0, y as int, positions@),
            decreases self.height - y,
        {
            let row = &rows[y as usize];
            let mut m: usize = 0;
            while m < row.len()
                invariant
                    0 <= y < self.height,
                    m <= row.len(),
                    self@.is_row_scan(y, robot.id, piece@, row@),
                    self@.is_scan_before(
                        robot.id,
                        piece@,
                        if m == 0 { 0 } else { row@[m - 1] + 1 },
                        y as int,
                        positions@,
                    ),
                decreases row.len() - m,
            {
                let ghost found = positions@;
                let x = row[m];
                positions.push(Position { x, y, robot_idx: robot.id, piece: piece.clone() });
                proof {
                    assert forall|c: i32, r: i32|
                        self@.in_bounds(c as int, r as int) && (r < y || (r == y && c < x + 1))
                            && #[trigger] self@.legal((c, r), robot.id, piece@) implies exists|
                        k: int,
                    |
                        0 <= k < positions@.len() && (#[trigger] positions@[k]).x == c
                            && positions@[k].y == r by {
                        if r == y && c == x {
                            assert(positions@[found.len() as int].x == c);
                        } else {
                            let k = choose|k: int|
                                0 <= k < found.len() && (#[trigger] found[k]).x == c && found[k].y
                                    == r;
                            assert(positions@[k] == found[k]);
                        }
                    }
                }
                m += 1;
            }
            y += 1;
        }
        positions
    }

    /// Marks `coord` with `id` if it lies on the board, and says whether it
    /// does. A coordinate off the board leaves the board as it was.
    pub fn occupy(&mut self, coord: (i32, i32), id: i32) -> (marked: bool)
        ensures
            marked == old(self)@.in_bounds(coord.0 as int, coord.1 as int),
            final(self)@ == if marked {
                (BoardView { marks: old(self)@.marks.insert(coord, id), ..old(self)@ })
            } else {
                old(self)@
            },
            final(self).opp_occupation == old(self).opp_occupation,
            old(self)@.wf() ==> final(self)@.wf(),
    {
        if 0 <= coord.0 && coord.0 < self.width && 0 <= coord.1 && coord.1 < self.height {
            self.occupation.insert(coord, id);
            true
        } else {
            false
        }
    }
}

impl Ceil {
    /// The cell at `(x, y)` owned by `robot_idx`. The coordinate is not held
    /// against any board.
    pub fn new(x: i32, y: i32, robot_idx: i32) -> (cell: Self)
        ensures
            cell == (Ceil { x, y, occupied_by: robot_idx }),
    {
        Self { x, y, occupied_by: robot_idx }
    }

    /// The blocking potential of this cell on `anfield`: the shares of its
    /// neighbors, added up in neighbor order and then divided by 8. Every
    /// division truncates.
    pub fn blocking_potential(&self, anfield: &Anfield) -> (score: i32)
        ensures
            score == blocking_sum(
                anfield@.marks,
                self.occupied_by,
                neighbors(anfield@.marks, self.x as int, self.y as int),
            ) / 8,
            0 <= score <= 24,
    {
        let ghost marks = anfield@.marks;
        let neighboors = self.get_neightboor(anfield);
        let mut blocking_score: usize = 0;
        let mut k: usize = 0;
        proof {
            lemma_neighbors_len(marks, self.x as int, self.y as int);
        }
        while k < neighboors.len()
            invariant
                k <= neighboors.len() <= 9,
                marks == anfield@.marks,
                blocking_score == blocking_sum(marks, self.occupied_by, neighboors@.take(k as int)),
                blocking_score <= 22 * k,
            decreases neighboors.len() - k,
        {
            let ceil = neighboors[k];
            proof {
                neighboors@.lemma_take_succ_push(k as int);
                assert(neighboors@.take(k + 1).drop_last() =~= neighboors@.take(k as int));
                lemma_neighbors_len(marks, ceil.x as int, ceil.y as int);
            }
            if ceil.occupied_by != self.occupied_by && ceil.occupied_by != 0 {
                let around = ceil.get_neightboor(anfield);
                blocking_score += 20 * count_unowned(&around) / 8;
            }
            k += 1;
        }
        proof {
            assert(neighboors@.take(neighboors.len() as int) =~= neighboors@);
        }
        (blocking_score / 8) as i32
    }

    /// The neighbors of this cell on `anfield`: one cell for each coordinate
    /// of the window around it that has an entry in the occupancy mapping,
    /// row by row. Coordinates without an entry are left out; the center is
    /// returned too if it has an entry.
    pub fn get_neightboor(&self, anfield: &Anfield) -> (neighboors: Vec<Ceil>)
        ensures
            neighboors@ == neighbors(anfield@.marks, self.x as int, self.y as int),
    {
        let ghost marks = anfield@.marks;
        let ghost coords = window(self.x as int, self.y as int);
        let mut neighboors: Vec<Ceil> = Vec::new();
        let mut k: i64 = 0;
        proof {
            reveal(Seq::filter);
        }
        while k < 9
            invariant
                0 <= k <= 9,
                marks == anfield@.marks,
                coords == window(self.x as int, self.y as int),
                neighboors@ == marked_cells(marks, coords.take(k as int)),
            decreases 9 - k,
        {
            let nj: i64 = self.x as i64 + k % 3 - 1;
            let ni: i64 = self.y as i64 + k / 3 - 1;
            proof {
                coords.lemma_take_succ_push(k as int);
                lemma_marked_cells_push(marks, coords.take(k as int), coords[k as int]);
            }
            if i32::MIN as i64 <= nj && nj <= i32::MAX as i64 && i32::MIN as i64 <= ni && ni
                <= i32::MAX as i64 {
                if let Some(idx) = anfield.occupation.get((nj as i32, ni as i32)) {
                    neighboors.push(Ceil::new(nj as i32, ni as i32, idx));
                }
            }
            k += 1;
        }
        proof {
            assert(coords.take(9) =~= coords);
        }
        neighboors
    }
}

} // verus!
