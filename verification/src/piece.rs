//! The values that the board is asked about: the shape of a piece, the
//! player who places it, and a candidate placement.

use vstd::prelude::*;

verus! {

/// The marker of a footprint cell that the piece leaves empty. Every other
/// character marks a filled cell.
pub const EMPTY_MARKER: char = '.';

/// A player. The id 0 stands for "no owner" and belongs to no player.
#[derive(Debug, Clone, Copy, PartialEq, Eq, Hash)]
pub struct Robot {
    pub id: i32,
}

/// A piece: a footprint of `height` rows and `width` columns, with one marker
/// per cell in `ceils`, rows first.
#[derive(Debug, PartialEq, Eq, Hash)]
pub struct Piece {
    pub width: i32,
    pub height: i32,
    pub ceils: Vec<Vec<char>>,
}

/// A piece as a mathematical value.
pub struct PieceView {
    pub width: int,
    pub height: int,
    pub ceils: Seq<Seq<char>>,
}

impl PieceView {
    /// Every cell of the `height` by `width` footprint has a marker: the
    /// grid has a row for each row of the footprint, and in each of these
    /// rows a marker for each column.
    pub open spec fn wf(self) -> bool {
        &&& self.height <= self.ceils.len()
        &&& forall|r: int| 0 <= r < self.height ==> self.width <= (#[trigger] self.ceils[r]).len()
    }

    /// The footprint has a filled cell in row `r`, column `c`.
    pub open spec fn filled(self, r: int, c: int) -> bool {
        &&& 0 <= r < self.height
        &&& 0 <= c < self.width
        &&& self.ceils[r][c] != EMPTY_MARKER
    }
}

impl View for Piece {
    type V = PieceView;

    open spec fn view(&self) -> PieceView {
        PieceView {
            width: self.width as int,
            height: self.height as int,
            ceils: Seq::new(self.ceils@.len(), |r: int| self.ceils@[r]@),
        }
    }
}

impl Piece {
    /// Whether the grid holds a marker for every cell of the declared
    /// footprint.
    pub fn is_wf(&self) -> (ok: bool)
        ensures
            ok == self@.wf(),
    {
        if self.height <= 0 {
            return true;
        }
        if self.ceils.len() < self.height as usize {
            return false;
        }
        let mut r: usize = 0;
        while r < self.height as usize
            invariant
                0 < self.height,
                self.height <= self.ceils.len(),
                r <= self.height,
                forall|k: int| 0 <= k < r ==> self.width <= (#[trigger] self@.ceils[k]).len(),
            decreases self.height - r,
        {
            if self.width > 0 && self.ceils[r].len() < self.width as usize {
                assert(!(self@.width <= self@.ceils[r as int].len()));
                return false;
            }
            r += 1;
        }
        true
    }

    /// Whether the cell in row `r`, column `c` of the footprint is filled.
    pub fn is_filled(&self, r: i32, c: i32) -> (filled: bool)
        requires
            self@.wf(),
            0 <= r < self.height,
            0 <= c < self.width,
        ensures
            filled == self@.filled(r as int, c as int),
    {
        assert(self.width <= self@.ceils[r as int].len());
        self.ceils[r as usize][c as usize] != EMPTY_MARKER
    }
}

impl Clone for Piece {
    fn clone(&self) -> (copy: Self)
        ensures
            copy@ == self@,
    {
        let mut ceils: Vec<Vec<char>> = Vec::new();
        let mut r: usize = 0;
        while r < self.ceils.len()
            invariant
                r <= self.ceils.len(),
                ceils@.len() == r,
                forall|k: int| 0 <= k < r ==> (#[trigger] ceils@[k])@ == self.ceils@[k]@,
            decreases self.ceils.len() - r,
        {
            let row = &self.ceils[r];
            let mut copied: Vec<char> = Vec::new();
            let mut c: usize = 0;
            while c < row.len()
                invariant
                    c <= row.len(),
                    copied@ == row@.take(c as int),
                decreases row.len() - c,
            {
                copied.push(row[c]);
                c += 1;
            }
            ceils.push(copied);
            r += 1;
        }
        let copy = Piece { width: self.width, height: self.height, ceils };
        assert(copy@.ceils =~= self@.ceils);
        copy
    }
}

/// A candidate placement: the piece `piece`, set down by the player
/// `robot_idx` with the top-left cell of its footprint at `(x, y)`.
#[derive(Debug, PartialEq, Eq, Hash)]
pub struct Position {
    pub x: i32,
    pub y: i32,
    pub robot_idx: i32,
    pub piece: Piece,
}

impl Position {
    /// A scan of the board row by row comes to the coordinate of this
    /// placement before it comes to `(x, y)`.
    pub open spec fn lies_before(self, x: int, y: int) -> bool {
        self.y < y || (self.y == y && self.x < x)
    }
}

impl Clone for Position {
    fn clone(&self) -> (copy: Self)
        ensures
            copy.x == self.x,
            copy.y == self.y,
            copy.robot_idx == self.robot_idx,
            copy.piece@ == self.piece@,
    {
        Position { x: self.x, y: self.y, robot_idx: self.robot_idx, piece: self.piece.clone() }
    }
}

} // verus!
