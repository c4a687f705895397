//! The board-wide search for legal placements, spread over the worker
//! threads of `rayon`, one row of the board at a time.

use crate::anfield::Anfield;
use crate::piece::{Piece, Robot};
use rayon::iter::{IntoParallelIterator, ParallelIterator};
use vstd::prelude::*;

verus! {

/// The scan of every row of the board: entry `y` holds the columns of row
/// `y` at which `robot` may set `piece` down.
///
/// Not verified. The body hands the rows to `rayon`: `into_par_iter` on the
/// range of row numbers, `map` with a closure that calls
/// [`Anfield::legal_columns`], and `collect` into a `Vec`. The contract
/// claims of them what `rayon` documents: `collect` yields one item for each
/// number of the range, in the order of the range, and each item is what the
/// closure returns for that number. What the closure returns is taken from
/// the contract of `legal_columns`.
#[verifier::external_body]
pub(crate) fn scan_rows(board: &Anfield, robot: &Robot, piece: &Piece) -> (rows: Vec<Vec<i32>>)
    requires
        piece@.wf(),
    ensures
        rows@.len() == if 0 < board.height { board.height as int } else { 0 },
        forall|y: int|
            0 <= y < rows@.len() ==> board@.is_row_scan(
                y as i32,
                robot.id,
                piece@,
                (#[trigger] rows@[y])@,
            ),
{
    (0..board.height).into_par_iter().map(|y| board.legal_columns(y, robot, piece)).collect()
}

} // verus!
