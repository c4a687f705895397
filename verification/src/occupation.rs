//! The occupancy mapping of a board: which coordinates carry a mark, and
//! whose.
//!
//! Coordinates are pairs of `i32`. The table underneath is keyed by a single
//! `u64` into which the pair is packed, one key for each pair.

use std::collections::HashMap;
use vstd::prelude::*;

verus! {

/// The key under which the coordinate `(x, y)` is stored: both halves are
/// shifted into `[0, 2^32)` and laid side by side, so that different
/// coordinates have different keys and every key is that of a coordinate.
spec fn pack(x: i32, y: i32) -> u64 {
    ((x + 0x8000_0000) * 0x1_0000_0000 + (y + 0x8000_0000)) as u64
}

fn pack_key(x: i32, y: i32) -> (key: u64)
    ensures
        key == pack(x, y),
{
    let hi: u64 = (x as i64 + 0x8000_0000) as u64;
    let lo: u64 = (y as i64 + 0x8000_0000) as u64;
    hi * 0x1_0000_0000 + lo
}

fn unpack_key(key: u64) -> (coord: (i32, i32))
    ensures
        pack(coord.0, coord.1) == key,
{
    let hi: u64 = key / 0x1_0000_0000;
    let lo: u64 = key % 0x1_0000_0000;
    ((hi as i64 - 0x8000_0000) as i32, (lo as i64 - 0x8000_0000) as i32)
}

/// Which coordinates are marked, and with which owner id. A coordinate
/// without an entry is unmarked; an entry may also carry the id 0.
#[derive(Debug)]
pub struct Occupation {
    cells: HashMap<u64, i32>,
}

impl View for Occupation {
    type V = Map<(i32, i32), i32>;

    closed spec fn view(&self) -> Map<(i32, i32), i32> {
        Map::new(
            |c: (i32, i32)| self.cells@.contains_key(pack(c.0, c.1)),
            |c: (i32, i32)| self.cells@[pack(c.0, c.1)],
        )
    }
}

impl Occupation {
    /// An occupancy mapping without entries.
    pub fn new() -> (occ: Self)
        ensures
            occ@ == Map::<(i32, i32), i32>::empty(),
    {
        Occupation { cells: HashMap::new() }
    }

    /// Marks `coord` with `id`, replacing an earlier mark, which is returned.
    pub fn insert(&mut self, coord: (i32, i32), id: i32) -> (prev: Option<i32>)
        ensures
            final(self)@ == old(self)@.insert(coord, id),
            prev == if old(self)@.contains_key(coord) {
                Some(old(self)@[coord])
            } else {
                None::<i32>
            },
    {
        self.cells.insert(pack_key(coord.0, coord.1), id)
    }

    /// Every entry once, as a coordinate with its mark, in no particular
    /// order.
    pub fn entries(&self) -> (out: Vec<((i32, i32), i32)>)
        ensures
            out@.no_duplicates(),
            forall|c: (i32, i32), id: i32|
                out@.contains((c, id)) <==> self@.contains_key(c) && self@[c] == id,
    {
        let mut out: Vec<((i32, i32), i32)> = Vec::new();
        for (key, id) in it: self.cells.iter()
            invariant
                out@.len() == it.index(),
                forall|i: int|
                    0 <= i < out@.len() ==> pack(out@[i].0.0, out@[i].0.1) == *it.seq()[i].0
                        && out@[i].1 == *it.seq()[i].1,
        {
            let coord = unpack_key(*key);
            out.push((coord, *id));
        }
        out
    }

    /// The mark at `coord`, if it has one.
    pub fn get(&self, coord: (i32, i32)) -> (mark: Option<i32>)
        ensures
            mark == if self@.contains_key(coord) {
                Some(self@[coord])
            } else {
                None::<i32>
            },
    {
        match self.cells.get(&pack_key(coord.0, coord.1)) {
            Some(id) => Some(*id),
            None => None,
        }
    }
}

} // verus!
