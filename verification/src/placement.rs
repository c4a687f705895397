//! The placement rule, stated over the board's bounds and occupancy mapping
//! and the shape of a piece.

use crate::anfield::Anfield;
use crate::neighborhood::mark_at;
use crate::piece::{PieceView, Position};
use vstd::prelude::*;

verus! {

/// A board as a mathematical value: its bounds `[0, width) x [0, height)`
/// and its occupancy mapping. The constrained opponent cells are derived
/// from these and are no part of it.
pub struct BoardView {
    pub width: int,
    pub height: int,
    pub marks: Map<(i32, i32), i32>,
}

impl View for Anfield {
    type V = BoardView;

    open spec fn view(&self) -> BoardView {
        BoardView {
            width: self.width as int,
            height: self.height as int,
            marks: self.occupation@,
        }
    }
}

impl BoardView {
    /// Whether `(x, y)` lies on the board.
    pub open spec fn in_bounds(self, x: int, y: int) -> bool {
        0 <= x < self.width && 0 <= y < self.height
    }

    /// The dimensions are positive and every entry of the occupancy mapping
    /// lies on the board.
    pub open spec fn wf(self) -> bool {
        &&& 0 < self.width
        &&& 0 < self.height
        &&& forall|c: (i32, i32)| #[trigger]
            self.marks.contains_key(c) ==> self.in_bounds(c.0 as int, c.1 as int)
    }

    /// The footprint cell in row `r`, column `c` of `piece`, anchored with
    /// its top-left cell at `coord`, is filled and falls off the board.
    pub open spec fn sticks_out(self, coord: (i32, i32), piece: PieceView, r: int, c: int) -> bool {
        piece.filled(r, c) && !self.in_bounds(coord.0 + c, coord.1 + r)
    }

    /// The footprint cell in row `r`, column `c` is filled and lands on a
    /// coordinate marked with an owner other than 0 and `id`.
    pub open spec fn hits_other(
        self,
        coord: (i32, i32),
        id: i32,
        piece: PieceView,
        r: int,
        c: int,
    ) -> bool {
        &&& piece.filled(r, c)
        &&& mark_at(self.marks, coord.0 + c, coord.1 + r) matches Some(owner)
        &&& owner != 0
        &&& owner != id
    }

    /// The footprint cell in row `r`, column `c` is filled and lands on a
    /// coordinate marked with `id`.
    pub open spec fn touches(
        self,
        coord: (i32, i32),
        id: i32,
        piece: PieceView,
        r: int,
        c: int,
    ) -> bool {
        piece.filled(r, c) && mark_at(self.marks, coord.0 + c, coord.1 + r) == Some(id)
    }

    /// Some filled cell of the footprint falls off the board.
    pub open spec fn overflows(self, coord: (i32, i32), piece: PieceView) -> bool {
        exists|r: int, c: int| self.sticks_out(coord, piece, r, c)
    }

    /// Some filled cell of the footprint lands on another player's cell.
    pub open spec fn collides(self, coord: (i32, i32), id: i32, piece: PieceView) -> bool {
        exists|r: int, c: int| self.hits_other(coord, id, piece, r, c)
    }

    /// The footprint cells, as (row, column), that land on cells marked with
    /// `id`.
    pub open spec fn touching_cells(self, coord: (i32, i32), id: i32, piece: PieceView) -> Set<
        (int, int),
    > {
        Set::new(|rc: (int, int)| self.touches(coord, id, piece, rc.0, rc.1))
    }

    /// The touch count: how many filled footprint cells land on cells marked
    /// with `id`.
    pub open spec fn touch_count(self, coord: (i32, i32), id: i32, piece: PieceView) -> nat {
        self.touching_cells(coord, id, piece).len()
    }

    /// The placement rule: no filled footprint cell leaves the board, none
    /// lands on another player's cell, and exactly one lands on a cell
    /// marked with `id`. The rule looks at the cells that the footprint
    /// covers, not at the cells beside it.
    pub open spec fn legal(self, coord: (i32, i32), id: i32, piece: PieceView) -> bool {
        &&& !self.overflows(coord, piece)
        &&& !self.collides(coord, id, piece)
        &&& self.touch_count(coord, id, piece) == 1
    }

    /// `xs` is the scan of row `y`: the columns of the board at which the
    /// placement is legal, each once, in rising order.
    pub open spec fn is_row_scan(self, y: i32, id: i32, piece: PieceView, xs: Seq<i32>) -> bool {
        &&& forall|k: int|
            0 <= k < xs.len() ==> 0 <= #[trigger] xs[k] < self.width && self.legal(
                (xs[k], y),
                id,
                piece,
            )
        &&& forall|x: i32|
            0 <= x < self.width && #[trigger] self.legal((x, y), id, piece) ==> xs.contains(x)
        &&& forall|a: int, b: int| 0 <= a < b < xs.len() ==> #[trigger] xs[a] < #[trigger] xs[b]
    }

    /// `p` sets `piece` down for the player `id` at a coordinate of the board
    /// at which the placement is legal.
    pub open spec fn is_legal_position(self, p: Position, id: i32, piece: PieceView) -> bool {
        &&& p.robot_idx == id
        &&& p.piece@ == piece
        &&& self.in_bounds(p.x as int, p.y as int)
        &&& self.legal((p.x, p.y), id, piece)
    }

    /// `positions` is the scan of the board up to `(x, y)`: the legal
    /// placements at the coordinates that a scan row by row comes to before
    /// `(x, y)`, each once, in the order of the scan.
    pub open spec fn is_scan_before(
        self,
        id: i32,
        piece: PieceView,
        x: int,
        y: int,
        positions: Seq<Position>,
    ) -> bool {
        &&& forall|k: int|
            0 <= k < positions.len() ==> self.is_legal_position(#[trigger] positions[k], id, piece)
                && positions[k].lies_before(x, y)
        &&& forall|c: i32, r: i32|
            self.in_bounds(c as int, r as int) && (r < y || (r == y && c < x))
                && #[trigger] self.legal((c, r), id, piece) ==> exists|k: int|
                0 <= k < positions.len() && (#[trigger] positions[k]).x == c && positions[k].y
                    == r
        &&& forall|a: int, b: int|
            #![trigger positions[a], positions[b]]
            0 <= a < b < positions.len() ==> positions[a].lies_before(
                positions[b].x as int,
                positions[b].y as int,
            )
    }

    /// The touching cells that a row-by-row scan has passed when it stands
    /// before row `i`, column `j`.
    pub open spec fn touched_before(
        self,
        coord: (i32, i32),
        id: i32,
        piece: PieceView,
        i: int,
        j: int,
    ) -> Set<(int, int)> {
        Set::new(
            |rc: (int, int)|
                self.touches(coord, id, piece, rc.0, rc.1) && (rc.0 < i || (rc.0 == i && rc.1
                    < j)),
        )
    }

    /// A scan has passed finitely many touching cells wherever it stands.
    pub proof fn lemma_touched_before_finite(
        self,
        coord: (i32, i32),
        id: i32,
        piece: PieceView,
        i: int,
        j: int,
    )
        requires
            0 <= i,
            0 <= j,
        ensures
            self.touched_before(coord, id, piece, i, j).finite(),
        decreases i, j,
    {
        let passed = self.touched_before(coord, id, piece, i, j);
        if 0 < j {
            self.lemma_touched_before_finite(coord, id, piece, i, j - 1);
            let earlier = self.touched_before(coord, id, piece, i, j - 1);
            if self.touches(coord, id, piece, i, j - 1) {
                assert(passed =~= earlier.insert((i, j - 1)));
            } else {
                assert(passed =~= earlier);
            }
        } else if 0 < i {
            let width = if 0 < piece.width { piece.width } else { 0 };
            self.lemma_touched_before_finite(coord, id, piece, i - 1, width);
            assert(passed =~= self.touched_before(coord, id, piece, i - 1, width));
        } else {
            assert(passed =~= Set::<(int, int)>::empty());
        }
    }

    /// The touching cells are finitely many, so that the touch count is
    /// their number.
    pub proof fn lemma_touching_cells_finite(self, coord: (i32, i32), id: i32, piece: PieceView)
        ensures
            self.touching_cells(coord, id, piece).finite(),
    {
        let height = if 0 < piece.height { piece.height } else { 0 };
        self.lemma_touched_before_finite(coord, id, piece, height, 0);
        assert(self.touching_cells(coord, id, piece) =~= self.touched_before(
            coord,
            id,
            piece,
            height,
            0,
        ));
    }

    /// The footprint cell in row `r`, column `c` touches, and no other does.
    pub open spec fn is_only_touch(
        self,
        coord: (i32, i32),
        id: i32,
        piece: PieceView,
        r: int,
        c: int,
    ) -> bool {
        &&& self.touches(coord, id, piece, r, c)
        &&& forall|r2: int, c2: int| #[trigger]
            self.touches(coord, id, piece, r2, c2) ==> r2 == r && c2 == c
    }

    /// The touch count is 1 exactly where one footprint cell touches and no
    /// other does.
    pub proof fn lemma_single_touch(self, coord: (i32, i32), id: i32, piece: PieceView)
        ensures
            self.touch_count(coord, id, piece) == 1 <==> exists|r: int, c: int|
                self.is_only_touch(coord, id, piece, r, c),
    {
        let touching = self.touching_cells(coord, id, piece);
        self.lemma_touching_cells_finite(coord, id, piece);
        Set::lemma_is_singleton(touching);
        if touching.len() == 1 {
            let rc = touching.choose();
            assert(touching.contains(rc));
            assert forall|r2: int, c2: int| #[trigger]
                self.touches(coord, id, piece, r2, c2) implies r2 == rc.0 && c2 == rc.1 by {
                assert(touching.contains((r2, c2)));
            }
            assert(self.is_only_touch(coord, id, piece, rc.0, rc.1));
        }
        if exists|r: int, c: int| self.is_only_touch(coord, id, piece, r, c) {
            let (r, c) = choose|r: int, c: int| self.is_only_touch(coord, id, piece, r, c);
            assert(touching.contains((r, c)));
        }
    }

    /// A piece of one filled cell may be set down exactly on the cells of the
    /// board that are marked with the player's id.
    pub proof fn lemma_single_cell_piece(self, coord: (i32, i32), id: i32, piece: PieceView)
        requires
            piece.width == 1,
            piece.height == 1,
            piece.filled(0, 0),
        ensures
            self.legal(coord, id, piece) <==> self.in_bounds(coord.0 as int, coord.1 as int)
                && mark_at(self.marks, coord.0 as int, coord.1 as int) == Some(id),
    {
        self.lemma_single_touch(coord, id, piece);
        if self.legal(coord, id, piece) {
            assert(!self.sticks_out(coord, piece, 0, 0));
        }
        if self.in_bounds(coord.0 as int, coord.1 as int) && mark_at(
            self.marks,
            coord.0 as int,
            coord.1 as int,
        ) == Some(id) {
            assert(self.is_only_touch(coord, id, piece, 0, 0));
        }
    }

    /// A legal placement covers a cell of the board that is marked with the
    /// player's id. So a player without any mark on the board has no legal
    /// placement.
    pub proof fn lemma_legal_covers_own_mark(self, coord: (i32, i32), id: i32, piece: PieceView)
        requires
            self.legal(coord, id, piece),
        ensures
            exists|x: i32, y: i32|
                self.in_bounds(x as int, y as int) && #[trigger] self.marks.contains_key(
                    (x, y),
                ) && self.marks[(x, y)] == id,
    {
        let touching = self.touching_cells(coord, id, piece);
        if forall|rc: (int, int)| !touching.contains(rc) {
            assert(touching =~= Set::<(int, int)>::empty());
        }
        let rc = choose|rc: (int, int)| touching.contains(rc);
        assert(!self.sticks_out(coord, piece, rc.0, rc.1));
    }
}

} // verus!
