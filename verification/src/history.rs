//! The history heuristic's storage: a side-by-source-by-target table of
//! quiet-move scores, raised quadratically on a cutoff and rescaled when any
//! entry would leave the evaluation score range.
use vstd::prelude::*;
use crate::movegen::Move;

verus! {

/// Search depth, counted in fractional plies.
pub type Depth = i16;

/// One full ply of search depth.
pub const INC_PLY: Depth = 64;

/// The largest value an entry can reach: once an update pushes an entry past
/// the score range, every entry is quartered, so values stay below the fixed
/// point of that rescale.
pub const HISTORY_CAP: i32 = 90281;

/// The history table.
pub struct History {
    pub from_to: Vec<i32>,
}

/// The flat index of a (side, from, to) cell.
pub open spec fn hist_idx(white: bool, from: int, to: int) -> int {
    (if white {
        1int
    } else {
        0
    }) * 4096 + from * 64 + to
}

impl History {
    /// All cells present and inside the cap.
    pub open spec fn wf(self) -> bool {
        &&& self.from_to@.len() == 8192
        &&& forall|i: int| 0 <= i < 8192 ==> 0 <= #[trigger] self.from_to@[i] <= HISTORY_CAP
    }
}

impl Default for History {
    /// An empty table.
    fn default() -> (r: History)
        ensures
            r.wf(),
            forall|i: int| 0 <= i < 8192 ==> #[trigger] r.from_to@[i] == 0,
    {
        let mut v: Vec<i32> = Vec::new();
        let mut i: usize = 0;
        while i < 8192
            invariant
                i <= 8192,
                v@.len() == i,
                forall|k: int| 0 <= k < i ==> #[trigger] v@[k] == 0,
            decreases 8192 - i,
        {
            v.push(0);
            i += 1;
        }
        History { from_to: v }
    }
}

impl History {
    /// The stored score of a quiet move.
    pub fn get_score(&self, white: bool, mov: Move) -> (r: i32)
        requires
            self.wf(),
            mov.from < 64,
            mov.to < 64,
        ensures
            r == self.from_to@[hist_idx(white, mov.from as int, mov.to as int)],
    {
        let side: usize = if white {
            1
        } else {
            0
        };
        self.from_to[side * 4096 + (mov.from as usize) * 64 + mov.to as usize]
    }

    /// Raise the move's entry by the square of the depth in plies; if the
    /// entry then leaves the score range, quarter every entry.
    pub fn increase_score(&mut self, white: bool, mov: Move, depth: Depth)
        requires
            old(self).wf(),
            mov.from < 64,
            mov.to < 64,
            depth >= 0,
        ensures
            final (self).wf(),
            ({
                let idx = hist_idx(white, mov.from as int, mov.to as int);
                let d = (depth / INC_PLY) as int;
                let bumped = old(self).from_to@[idx] + d * d;
                if bumped > i16::MAX {
                    (forall|i: int|
                        0 <= i < 8192 ==> #[trigger] final (self).from_to@[i] == (if i == idx {
                            bumped
                        } else {
                            old(self).from_to@[i] as int
                        }) / 4)
                } else {
                    final (self).from_to@ == old(self).from_to@.update(idx, bumped as i32)
                }
            }),
    {
        let d = (depth / INC_PLY) as i32;
        let side: usize = if white {
            1
        } else {
            0
        };
        let idx = side * 4096 + (mov.from as usize) * 64 + mov.to as usize;
        proof {
            assert(0 <= d <= 511);
            assert(d * d <= 262144) by (nonlinear_arith)
                requires
                    0 <= d <= 511,
            ;
            assert(d * d >= 0) by (nonlinear_arith)
                requires
                    d >= 0,
            ;
        }
        let entry = self.from_to[idx] + d * d;
        self.from_to.set(idx, entry);
        let rescale = entry > i16::MAX as i32;
        if rescale {
            let mut i: usize = 0;
            let ghost bumped = self.from_to@;
            while i < 8192
                invariant
                    i <= 8192,
                    self.from_to@.len() == 8192,
                    bumped.len() == 8192,
                    forall|k: int| 0 <= k < 8192 ==> 0 <= #[trigger] bumped[k] <= HISTORY_CAP + 262144,
                    forall|k: int|
                        i <= k < 8192 ==> #[trigger] self.from_to@[k] == bumped[k],
                    forall|k: int|
                        0 <= k < i ==> #[trigger] self.from_to@[k] == bumped[k] / 4,
                decreases 8192 - i,
            {
                let v = self.from_to[i];
                self.from_to.set(i, v / 4);
                i += 1;
            }
        }
    }
}

} // verus!
