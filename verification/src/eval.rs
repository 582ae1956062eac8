//! Incremental evaluation: material counts, piece-square sums, pawns per
//! file and a small pawn-structure cache, updated in lockstep with the
//! position's make/unmake.
use vstd::prelude::*;
use crate::bitboard::{bit, file_of, has, popcnt, rank_of, Square};
use crate::movegen::{piece_idx, piece_value, Move, Piece};
use crate::position::{ep_victim, side_idx, Position};

verus! {

/// Evaluation scores are centipawns in a signed 16-bit range.
pub type Score = i16;

/// The sentinel score of a forced mate (the search offsets it by ply).
pub const MATE_SCORE: Score = 20000;

pub const PAWN_SCORE: Score = 100;

pub const KNIGHT_SCORE: Score = 300;

pub const BISHOP_SCORE: Score = 320;

pub const ROOK_SCORE: Score = 500;

pub const QUEEN_SCORE: Score = 1000;

/// Piece counts of both sides.
#[derive(Clone, PartialEq, Eq, Debug, Structural, Copy)]
pub struct Material {
    pub white_pawns: usize,
    pub white_knights: usize,
    pub white_bishops: usize,
    pub white_rooks: usize,
    pub white_queens: usize,
    pub black_pawns: usize,
    pub black_knights: usize,
    pub black_bishops: usize,
    pub black_rooks: usize,
    pub black_queens: usize,
}

/// Pawns per file for each side.
#[derive(Clone, PartialEq, Eq, Debug, Copy)]
pub struct Positional {
    pub white_pawns_per_file: [usize; 8],
    pub black_pawns_per_file: [usize; 8],
}

/// One slot of the pawn-structure cache: the two boards it was computed for
/// and the midgame/endgame scores.  A hit requires both boards to match
/// exactly, so no false positives arise.
#[derive(Clone, PartialEq, Eq, Debug, Copy)]
pub struct PawnHashEntry {
    pub pawns: u64,
    pub color: u64,
    pub mg: Score,
    pub eg: Score,
}

/// The number of pawn-cache slots.
pub const PAWN_TABLE_NUM_ENTRIES: usize = 2048;

/// The incrementally maintained evaluation state.
#[derive(Clone, PartialEq, Eq, Debug)]
pub struct Eval {
    pub material: Material,
    pub pst: [Score; 2],
    pub positional: Positional,
    pub pawn_table: Vec<PawnHashEntry>,
}

impl Material {
    /// Neither side can force mate: no pawns, rooks or queens anywhere, and
    /// the minor pieces of the stronger side below mating strength (at most
    /// two lone knights, or a single minor piece).
    pub open spec fn is_draw_spec(self) -> bool {
        if self.white_pawns > 0 || self.white_rooks > 0 || self.white_queens > 0 {
            false
        } else if self.black_pawns > 0 || self.black_rooks > 0 || self.black_queens > 0 {
            false
        } else if self.white_bishops == 0 && self.white_knights == 0 {
            if self.black_bishops == 0 && self.black_knights < 3 {
                true
            } else if self.black_bishops > 0 && self.black_bishops + self.black_knights > 1 {
                false
            } else {
                true
            }
        } else if self.black_bishops == 0 && self.black_knights == 0 {
            if self.white_bishops == 0 && self.white_knights < 3 {
                true
            } else if self.white_bishops > 0 && self.white_bishops + self.white_knights > 1 {
                false
            } else {
                true
            }
        } else {
            false
        }
    }

    /// Whether the material on the board is a known draw.
    pub fn is_draw(&self) -> (r: bool)
        ensures
            r == self.is_draw_spec(),
    {
        if self.white_pawns > 0 || self.white_rooks > 0 || self.white_queens > 0 {
            return false;
        }
        if self.black_pawns > 0 || self.black_rooks > 0 || self.black_queens > 0 {
            return false;
        }
        if self.white_bishops == 0 && self.white_knights == 0 {
            if self.black_bishops == 0 && self.black_knights < 3 {
                return true;
            }
            if self.black_bishops > 0 && (self.black_knights >= 1 || self.black_bishops >= 2) {
                return false;
            }
            return true;
        }
        if self.black_bishops == 0 && self.black_knights == 0 {
            if self.white_bishops == 0 && self.white_knights < 3 {
                return true;
            }
            if self.white_bishops > 0 && (self.white_knights >= 1 || self.white_bishops >= 2) {
                return false;
            }
            return true;
        }
        false
    }

    /// The counts a chess position can hold: at most eight pawns a side, and
    /// promotion-bounded piece counts.
    pub open spec fn wf(self) -> bool {
        &&& self.white_pawns <= 8
        &&& self.white_knights <= 10
        &&& self.white_bishops <= 10
        &&& self.white_rooks <= 10
        &&& self.white_queens <= 9
        &&& self.black_pawns <= 8
        &&& self.black_knights <= 10
        &&& self.black_bishops <= 10
        &&& self.black_rooks <= 10
        &&& self.black_queens <= 9
    }

    /// The material balance in centipawns, White minus Black: base values,
    /// a trade incentive of four centipawns per pawn for the side more than
    /// half a pawn ahead, and a bishop-pair bonus.
    pub open spec fn score_spec(self) -> int {
        let wm0 = 100 * self.white_pawns + 300 * self.white_knights + 320 * self.white_bishops
            + 500 * self.white_rooks + 1000 * self.white_queens;
        let bm0 = 100 * self.black_pawns + 300 * self.black_knights + 320 * self.black_bishops
            + 500 * self.black_rooks + 1000 * self.black_queens;
        let wm1 = if wm0 > bm0 + 50 {
            wm0 + 4 * self.white_pawns
        } else if bm0 > wm0 + 50 {
            wm0 - 4 * self.white_pawns
        } else {
            wm0 as int
        };
        let bm1 = if bm0 > wm0 + 50 {
            bm0 + 4 * self.black_pawns
        } else if wm0 > bm0 + 50 {
            bm0 - 4 * self.black_pawns
        } else {
            bm0 as int
        };
        let wm2 = if self.white_bishops > 1 {
            wm1 + 40
        } else {
            wm1
        };
        let bm2 = if self.black_bishops > 1 {
            bm1 + 40
        } else {
            bm1
        };
        wm2 - bm2
    }

    /// The material balance, White minus Black.
    pub fn score(&self) -> (r: Score)
        requires
            self.wf(),
        ensures
            r == self.score_spec(),
    {
        let mut white_material: i16 = 0;
        white_material += PAWN_SCORE * self.white_pawns as i16;
        white_material += KNIGHT_SCORE * self.white_knights as i16;
        white_material += BISHOP_SCORE * self.white_bishops as i16;
        white_material += ROOK_SCORE * self.white_rooks as i16;
        white_material += QUEEN_SCORE * self.white_queens as i16;

        let mut black_material: i16 = 0;
        black_material += PAWN_SCORE * self.black_pawns as i16;
        black_material += KNIGHT_SCORE * self.black_knights as i16;
        black_material += BISHOP_SCORE * self.black_bishops as i16;
        black_material += ROOK_SCORE * self.black_rooks as i16;
        black_material += QUEEN_SCORE * self.black_queens as i16;

        if white_material > black_material + 50 {
            white_material += 4 * self.white_pawns as i16;
            black_material -= 4 * self.black_pawns as i16;
        } else if black_material > white_material + 50 {
            black_material += 4 * self.black_pawns as i16;
            white_material -= 4 * self.white_pawns as i16;
        }

        if self.white_bishops > 1 {
            white_material += 40;
        }
        if self.black_bishops > 1 {
            black_material += 40;
        }

        white_material - black_material
    }

    /// The game-phase weight of the non-pawn material of both sides
    /// (62 at the standard start).
    pub open spec fn non_pawn_spec(self) -> int {
        3 * self.white_knights + 3 * self.white_bishops + 5 * self.white_rooks + 9
            * self.white_queens + 3 * self.black_knights + 3 * self.black_bishops + 5
            * self.black_rooks + 9 * self.black_queens
    }

    /// The phase weight of the remaining non-pawn material.
    pub fn non_pawn_material(&self) -> (r: Score)
        requires
            self.wf(),
        ensures
            r == self.non_pawn_spec(),
    {
        let mut white_material: i16 = 0;
        white_material += 3 * self.white_knights as i16;
        white_material += 3 * self.white_bishops as i16;
        white_material += 5 * self.white_rooks as i16;
        white_material += 9 * self.white_queens as i16;

        let mut black_material: i16 = 0;
        black_material += 3 * self.black_knights as i16;
        black_material += 3 * self.black_bishops as i16;
        black_material += 5 * self.black_rooks as i16;
        black_material += 9 * self.black_queens as i16;

        white_material + black_material
    }
}


/// The piece-square tables, White's point of view (Black mirrors the rank).
/// Only pawns, knights, bishops and rooks carry non-zero tables.
pub open spec fn pst_seq(piece: Piece) -> Seq<i16> {
    match piece {
        Piece::Pawn => seq![
            24i16, 28, 35, 50, 50, 35, 28, 24, 16, 23, 27, 34, 34, 27, 23, 16, 5, 7, 11, 20, 20,
            11, 7, 5, -12i16, -9i16, -2i16, 11, 11, -2i16, -9i16, -12i16, -21i16, -20i16, -12i16, 2, 2, -12i16, -20i16, -21i16, -17i16,
            -14i16, -14i16, -6i16, -6i16, -14i16, -14i16, -17i16, -21i16, -20i16, -18i16, -15i16, -15i16, -18i16, -20i16, -21i16, 0, 0, 0, 0,
            0, 0, 0, 0,
        ],
        Piece::Knight => seq![
            -10i16, -10i16, -10i16, -10i16, -10i16, -10i16, -10i16, -10i16, -10i16, 0, 10, 15, 15, 10, 0, -10i16, -10i16, 5, 15,
            20, 20, 15, 5, -10i16, -10i16, 5, 15, 20, 20, 15, 5, -10i16, -10i16, 0, 15, 20, 20, 15, 0, -10i16,
            -10i16, 0, 10, 10, 10, 10, 0, -10i16, -10i16, 0, 0, 5, 5, 0, 0, -10i16, -10i16, -10i16, -10i16, -10i16, -10i16,
            -10i16, -10i16, -10i16,
        ],
        Piece::Bishop => seq![
            -10i16, -10i16, -10i16, -10i16, -10i16, -10i16, -10i16, -10i16, -10i16, 0, 5, 10, 10, 5, 0, -10i16, -10i16, 5, 10,
            20, 20, 10, 5, -10i16, -10i16, 5, 10, 20, 20, 10, 5, -10i16, -10i16, 0, 10, 15, 15, 10, 0, -10i16,
            -10i16, 5, 10, 10, 10, 10, 5, -10i16, -10i16, 10, 0, 5, 5, 0, 10, -10i16, -10i16, -10i16, -10i16, -10i16,
            -10i16, -10i16, -10i16, -10i16,
        ],
        Piece::Rook => seq![
            20i16, 20, 20, 25, 25, 20, 20, 20, 20, 20, 20, 25, 25, 20, 20, 20, 0, 0, 0, 5, 5, 0,
            0, 0, 0, 0, 0, 5, 5, 0, 0, 0, 0, 0, 0, 5, 5, 0, 0, 0, -5i16, 0, 0, 10, 10, 0, 0, -5i16, -5i16,
            -5i16, 0, 15, 15, 0, -5i16, -5i16, -10i16, -5i16, 10, 25, 25, 10, -5i16, -10i16,
        ],
        Piece::Queen => seq![
            0i16, 0, 0, 0, 0, 0, 0, 0, 0, 0, 0, 0, 0, 0, 0, 0, 0, 0, 0, 0, 0, 0, 0, 0, 0, 0, 0,
            0, 0, 0, 0, 0, 0, 0, 0, 0, 0, 0, 0, 0, 0, 0, 0, 0, 0, 0, 0, 0, 0, 0, 0, 0, 0, 0, 0,
            0, 0, 0, 0, 0, 0, 0, 0, 0,
        ],
        Piece::King => seq![
            0i16, 0, 0, 0, 0, 0, 0, 0, 0, 0, 0, 0, 0, 0, 0, 0, 0, 0, 0, 0, 0, 0, 0, 0, 0, 0, 0,
            0, 0, 0, 0, 0, 0, 0, 0, 0, 0, 0, 0, 0, 0, 0, 0, 0, 0, 0, 0, 0, 0, 0, 0, 0, 0, 0, 0,
            0, 0, 0, 0, 0, 0, 0, 0, 0,
        ],
    }
}

/// The table index of a square: White reads the table rank-flipped.
pub open spec fn pst_index(from_white_perspective: bool, sq: int) -> int {
    if from_white_perspective {
        (7 - rank_of(sq)) * 8 + file_of(sq)
    } else {
        sq
    }
}

/// The piece-square value of `piece` on `sq` for the given side.
pub open spec fn pst_spec(piece: Piece, from_white_perspective: bool, sq: int) -> int {
    pst_seq(piece)[pst_index(from_white_perspective, sq)] as int
}

/// The table of one piece kind, as an array.
pub fn piece_pst(piece: Piece) -> (r: [i16; 64])
    ensures
        r@ == pst_seq(piece),
        forall|i: int| 0 <= i < 64 ==> -21 <= #[trigger] r@[i] <= 50,
{
    let r: [i16; 64] = match piece {
        Piece::Pawn => [
            24i16, 28, 35, 50, 50, 35, 28, 24, 16, 23, 27, 34, 34, 27, 23, 16, 5, 7, 11, 20, 20,
            11, 7, 5, -12, -9, -2, 11, 11, -2, -9, -12, -21, -20, -12, 2, 2, -12, -20, -21, -17,
            -14, -14, -6, -6, -14, -14, -17, -21, -20, -18, -15, -15, -18, -20, -21, 0, 0, 0, 0,
            0, 0, 0, 0,
        ],
        Piece::Knight => [
            -10i16, -10, -10, -10, -10, -10, -10, -10, -10, 0, 10, 15, 15, 10, 0, -10, -10, 5, 15,
            20, 20, 15, 5, -10, -10, 5, 15, 20, 20, 15, 5, -10, -10, 0, 15, 20, 20, 15, 0, -10,
            -10, 0, 10, 10, 10, 10, 0, -10, -10, 0, 0, 5, 5, 0, 0, -10, -10, -10, -10, -10, -10,
            -10, -10, -10,
        ],
        Piece::Bishop => [
            -10i16, -10, -10, -10, -10, -10, -10, -10, -10, 0, 5, 10, 10, 5, 0, -10, -10, 5, 10,
            20, 20, 10, 5, -10, -10, 5, 10, 20, 20, 10, 5, -10, -10, 0, 10, 15, 15, 10, 0, -10,
            -10, 5, 10, 10, 10, 10, 5, -10, -10, 10, 0, 5, 5, 0, 10, -10, -10, -10, -10, -10,
            -10, -10, -10, -10,
        ],
        Piece::Rook => [
            20i16, 20, 20, 25, 25, 20, 20, 20, 20, 20, 20, 25, 25, 20, 20, 20, 0, 0, 0, 5, 5, 0,
            0, 0, 0, 0, 0, 5, 5, 0, 0, 0, 0, 0, 0, 5, 5, 0, 0, 0, -5, 0, 0, 10, 10, 0, 0, -5, -5,
            -5, 0, 15, 15, 0, -5, -5, -10, -5, 10, 25, 25, 10, -5, -10,
        ],
        _ => [
            0i16, 0, 0, 0, 0, 0, 0, 0, 0, 0, 0, 0, 0, 0, 0, 0, 0, 0, 0, 0, 0, 0, 0, 0, 0, 0, 0,
            0, 0, 0, 0, 0, 0, 0, 0, 0, 0, 0, 0, 0, 0, 0, 0, 0, 0, 0, 0, 0, 0, 0, 0, 0, 0, 0, 0,
            0, 0, 0, 0, 0, 0, 0, 0, 0,
        ],
    };
    proof {
        assert(r@ =~= pst_seq(piece));
    }
    r
}

/// The piece-square value of a piece of the given side on `sq`.
pub fn pst(table: &[i16; 64], from_white_perspective: bool, sq: Square) -> (r: i16)
    requires
        sq < 64,
    ensures
        r as int == (table@[pst_index(from_white_perspective, sq as int)] as int),
{
    proof {
        assert(0 <= pst_index(from_white_perspective, sq as int) < 64);
    }
    if from_white_perspective {
        let idx = sq ^ 0b11_1000;
        proof {
            assert(idx == (7 - (sq as int) / 8) * 8 + (sq as int) % 8) by (bit_vector)
                requires
                    sq < 64 && idx == sq ^ 0b11_1000,
            ;
        }
        table[idx as usize]
    } else {
        table[sq as usize]
    }
}

/// How one move changes the side-indexed piece-square sums, exactly as the
/// incremental update applies it: the mover leaves its source and arrives
/// (possibly promoted) at its target, a victim leaves its square, and the
/// castling rook relocates.
pub open spec fn pst_after(e: Eval, white: bool, m: Move) -> [Score; 2] {
    let us = side_idx(white);
    let them = side_idx(!white);
    let s0 = e.pst[us] - pst_spec(m.piece, white, m.from as int);
    let s1 = s0 + (match m.promoted {
        Some(pp) => pst_spec(pp, white, m.to as int),
        None => pst_spec(m.piece, white, m.to as int),
    });
    let t0 = e.pst[them] - (match m.captured {
        Some(c) => if m.en_passant {
            pst_spec(Piece::Pawn, !white, ep_victim(white, m.to as int))
        } else {
            pst_spec(c, !white, m.to as int)
        },
        None => 0int,
    });
    let s2 = if crate::position::is_ks_castle(m) {
        s1 - pst_spec(Piece::Rook, white, m.to as int + 1) + pst_spec(
            Piece::Rook,
            white,
            m.to as int - 1,
        )
    } else if crate::position::is_qs_castle(m) {
        s1 - pst_spec(Piece::Rook, white, m.to as int - 2) + pst_spec(
            Piece::Rook,
            white,
            m.to as int + 1,
        )
    } else {
        s1
    };
    if white {
        [t0 as i16, s2 as i16]
    } else {
        [s2 as i16, t0 as i16]
    }
}

/// The count fields the move decrements must be positive, the piece-square
/// sums must have headroom, and the squares must be on the board.
pub open spec fn eval_applicable(e: Eval, white: bool, m: Move) -> bool {
    &&& m.from < 64
    &&& m.to < 64
    &&& (m.en_passant ==> 0 <= ep_victim(white, m.to as int) < 64)
    &&& (crate::position::is_ks_castle(m) ==> m.to <= 62)
    &&& (crate::position::is_qs_castle(m) ==> m.to >= 2)
    &&& -30000 <= e.pst[0] <= 30000
    &&& -30000 <= e.pst[1] <= 30000
    &&& (m.piece is Pawn ==> (if white {
        e.positional.white_pawns_per_file[file_of(m.from as int)]
    } else {
        e.positional.black_pawns_per_file[file_of(m.from as int)]
    }) >= 1)
    &&& (m.captured == Some(Piece::Pawn) ==> (if white {
        e.positional.black_pawns_per_file[file_of(m.to as int)] >= 1 && e.material.black_pawns
            >= 1
    } else {
        e.positional.white_pawns_per_file[file_of(m.to as int)] >= 1 && e.material.white_pawns
            >= 1
    }))
    &&& (m.captured == Some(Piece::Knight) ==> (if white {
        e.material.black_knights >= 1
    } else {
        e.material.white_knights >= 1
    }))
    &&& (m.captured == Some(Piece::Bishop) ==> (if white {
        e.material.black_bishops >= 1
    } else {
        e.material.white_bishops >= 1
    }))
    &&& (m.captured == Some(Piece::Rook) ==> (if white {
        e.material.black_rooks >= 1
    } else {
        e.material.white_rooks >= 1
    }))
    &&& (m.captured == Some(Piece::Queen) ==> (if white {
        e.material.black_queens >= 1
    } else {
        e.material.white_queens >= 1
    }))
    &&& (m.promoted is Some ==> m.piece is Pawn && (if white {
        e.material.white_pawns >= 1
    } else {
        e.material.black_pawns >= 1
    }))
    &&& e.material.white_pawns < 100000
    &&& e.material.white_knights < 100000
    &&& e.material.white_bishops < 100000
    &&& e.material.white_rooks < 100000
    &&& e.material.white_queens < 100000
    &&& e.material.black_pawns < 100000
    &&& e.material.black_knights < 100000
    &&& e.material.black_bishops < 100000
    &&& e.material.black_rooks < 100000
    &&& e.material.black_queens < 100000
    &&& (forall|f: int|
        0 <= f < 8 ==> #[trigger] e.positional.white_pawns_per_file[f] < 100000)
    &&& (forall|f: int|
        0 <= f < 8 ==> #[trigger] e.positional.black_pawns_per_file[f] < 100000)
}

/// How one move changes the material counts: a victim's count falls and a
/// promotion trades a pawn for the promoted piece.
pub open spec fn material_after(mat: Material, white: bool, m: Move) -> Material {
    let m1 = match m.captured {
        Some(Piece::Pawn) => if white {
            Material { black_pawns: (mat.black_pawns - 1) as usize, ..mat }
        } else {
            Material { white_pawns: (mat.white_pawns - 1) as usize, ..mat }
        },
        Some(Piece::Knight) => if white {
            Material { black_knights: (mat.black_knights - 1) as usize, ..mat }
        } else {
            Material { white_knights: (mat.white_knights - 1) as usize, ..mat }
        },
        Some(Piece::Bishop) => if white {
            Material { black_bishops: (mat.black_bishops - 1) as usize, ..mat }
        } else {
            Material { white_bishops: (mat.white_bishops - 1) as usize, ..mat }
        },
        Some(Piece::Rook) => if white {
            Material { black_rooks: (mat.black_rooks - 1) as usize, ..mat }
        } else {
            Material { white_rooks: (mat.white_rooks - 1) as usize, ..mat }
        },
        Some(Piece::Queen) => if white {
            Material { black_queens: (mat.black_queens - 1) as usize, ..mat }
        } else {
            Material { white_queens: (mat.white_queens - 1) as usize, ..mat }
        },
        _ => mat,
    };
    match m.promoted {
        Some(Piece::Knight) => if white {
            Material {
                white_pawns: (m1.white_pawns - 1) as usize,
                white_knights: (m1.white_knights + 1) as usize,
                ..m1
            }
        } else {
            Material {
                black_pawns: (m1.black_pawns - 1) as usize,
                black_knights: (m1.black_knights + 1) as usize,
                ..m1
            }
        },
        Some(Piece::Bishop) => if white {
            Material {
                white_pawns: (m1.white_pawns - 1) as usize,
                white_bishops: (m1.white_bishops + 1) as usize,
                ..m1
            }
        } else {
            Material {
                black_pawns: (m1.black_pawns - 1) as usize,
                black_bishops: (m1.black_bishops + 1) as usize,
                ..m1
            }
        },
        Some(Piece::Rook) => if white {
            Material {
                white_pawns: (m1.white_pawns - 1) as usize,
                white_rooks: (m1.white_rooks + 1) as usize,
                ..m1
            }
        } else {
            Material {
                black_pawns: (m1.black_pawns - 1) as usize,
                black_rooks: (m1.black_rooks + 1) as usize,
                ..m1
            }
        },
        Some(Piece::Queen) => if white {
            Material {
                white_pawns: (m1.white_pawns - 1) as usize,
                white_queens: (m1.white_queens + 1) as usize,
                ..m1
            }
        } else {
            Material {
                black_pawns: (m1.black_pawns - 1) as usize,
                black_queens: (m1.black_queens + 1) as usize,
                ..m1
            }
        },
        _ => m1,
    }
}

/// Whether the move removes a pawn of the given side's pawn-per-file array
/// from file `f` (the mover leaving `from`, or the victim leaving `to`).
pub open spec fn ppf_loses(white_array: bool, white: bool, m: Move, f: int) -> int {
    let mover_loss: int = if m.piece is Pawn && (white_array == white) && file_of(m.from as int)
        == f {
        1
    } else {
        0
    };
    let victim_loss: int = if m.captured == Some(Piece::Pawn) && (white_array != white) && file_of(
        m.to as int,
    ) == f {
        1
    } else {
        0
    };
    mover_loss + victim_loss
}

/// Whether the move adds a pawn on file `f` of the given side's array (a
/// pawn move that does not promote).
pub open spec fn ppf_gains(white_array: bool, white: bool, m: Move, f: int) -> int {
    if m.piece is Pawn && m.promoted is None && (white_array == white) && file_of(m.to as int)
        == f {
        1
    } else {
        0
    }
}

/// The pawn-per-file counts after the move, for one side's array, file by
/// file.
pub open spec fn ppf_after_ok(e0: Eval, e1: Eval, white: bool, m: Move) -> bool {
    &&& (forall|f: int|
        0 <= f < 8 ==> #[trigger] e1.positional.white_pawns_per_file[f]
            == e0.positional.white_pawns_per_file[f] - ppf_loses(true, white, m, f) + ppf_gains(
            true,
            white,
            m,
            f,
        ))
    &&& (forall|f: int|
        0 <= f < 8 ==> #[trigger] e1.positional.black_pawns_per_file[f]
            == e0.positional.black_pawns_per_file[f] - ppf_loses(false, white, m, f) + ppf_gains(
            false,
            white,
            m,
            f,
        ))
}

/// What `make_move` does to the evaluation state: material and per-file
/// counts follow the captures and promotions, the piece-square sums follow
/// the relocations, and the pawn cache is untouched.
pub open spec fn eval_make_rel(e0: Eval, e1: Eval, white: bool, m: Move) -> bool {
    &&& e1.material == material_after(e0.material, white, m)
    &&& e1.pst == pst_after(e0, white, m)
    &&& ppf_after_ok(e0, e1, white, m)
    &&& e1.pawn_table == e0.pawn_table
}

/// The material counts before the move was played: the inverse of
/// `material_after`.
pub open spec fn material_before(mat: Material, white: bool, m: Move) -> Material {
    let m1 = match m.promoted {
        Some(Piece::Knight) => if white {
            Material {
                white_pawns: (mat.white_pawns + 1) as usize,
                white_knights: (mat.white_knights - 1) as usize,
                ..mat
            }
        } else {
            Material {
                black_pawns: (mat.black_pawns + 1) as usize,
                black_knights: (mat.black_knights - 1) as usize,
                ..mat
            }
        },
        Some(Piece::Bishop) => if white {
            Material {
                white_pawns: (mat.white_pawns + 1) as usize,
                white_bishops: (mat.white_bishops - 1) as usize,
                ..mat
            }
        } else {
            Material {
                black_pawns: (mat.black_pawns + 1) as usize,
                black_bishops: (mat.black_bishops - 1) as usize,
                ..mat
            }
        },
        Some(Piece::Rook) => if white {
            Material {
                white_pawns: (mat.white_pawns + 1) as usize,
                white_rooks: (mat.white_rooks - 1) as usize,
                ..mat
            }
        } else {
            Material {
                black_pawns: (mat.black_pawns + 1) as usize,
                black_rooks: (mat.black_rooks - 1) as usize,
                ..mat
            }
        },
        Some(Piece::Queen) => if white {
            Material {
                white_pawns: (mat.white_pawns + 1) as usize,
                white_queens: (mat.white_queens - 1) as usize,
                ..mat
            }
        } else {
            Material {
                black_pawns: (mat.black_pawns + 1) as usize,
                black_queens: (mat.black_queens - 1) as usize,
                ..mat
            }
        },
        _ => mat,
    };
    match m.captured {
        Some(Piece::Pawn) => if white {
            Material { black_pawns: (m1.black_pawns + 1) as usize, ..m1 }
        } else {
            Material { white_pawns: (m1.white_pawns + 1) as usize, ..m1 }
        },
        Some(Piece::Knight) => if white {
            Material { black_knights: (m1.black_knights + 1) as usize, ..m1 }
        } else {
            Material { white_knights: (m1.white_knights + 1) as usize, ..m1 }
        },
        Some(Piece::Bishop) => if white {
            Material { black_bishops: (m1.black_bishops + 1) as usize, ..m1 }
        } else {
            Material { white_bishops: (m1.white_bishops + 1) as usize, ..m1 }
        },
        Some(Piece::Rook) => if white {
            Material { black_rooks: (m1.black_rooks + 1) as usize, ..m1 }
        } else {
            Material { white_rooks: (m1.white_rooks + 1) as usize, ..m1 }
        },
        Some(Piece::Queen) => if white {
            Material { black_queens: (m1.black_queens + 1) as usize, ..m1 }
        } else {
            Material { white_queens: (m1.white_queens + 1) as usize, ..m1 }
        },
        _ => m1,
    }
}

/// The piece-square sums before the move was played: the inverse of
/// `pst_after`.
pub open spec fn pst_before(e: Eval, white: bool, m: Move) -> [Score; 2] {
    let us = side_idx(white);
    let them = side_idx(!white);
    let s0 = e.pst[us] + pst_spec(m.piece, white, m.from as int);
    let s1 = s0 - (match m.promoted {
        Some(pp) => pst_spec(pp, white, m.to as int),
        None => pst_spec(m.piece, white, m.to as int),
    });
    let t0 = e.pst[them] + (match m.captured {
        Some(c) => if m.en_passant {
            pst_spec(Piece::Pawn, !white, ep_victim(white, m.to as int))
        } else {
            pst_spec(c, !white, m.to as int)
        },
        None => 0int,
    });
    let s2 = if crate::position::is_ks_castle(m) {
        s1 + pst_spec(Piece::Rook, white, m.to as int + 1) - pst_spec(
            Piece::Rook,
            white,
            m.to as int - 1,
        )
    } else if crate::position::is_qs_castle(m) {
        s1 + pst_spec(Piece::Rook, white, m.to as int - 2) - pst_spec(
            Piece::Rook,
            white,
            m.to as int + 1,
        )
    } else {
        s1
    };
    if white {
        [t0 as i16, s2 as i16]
    } else {
        [s2 as i16, t0 as i16]
    }
}

/// What `unmake_move` does to the evaluation state: the inverse updates of
/// `eval_make_rel` for the side that is retracting.
pub open spec fn eval_unmake_rel(e0: Eval, e1: Eval, uw: bool, m: Move) -> bool {
    &&& e1.material == material_before(e0.material, uw, m)
    &&& e1.pst == pst_before(e0, uw, m)
    &&& (forall|f: int|
        0 <= f < 8 ==> #[trigger] e1.positional.white_pawns_per_file[f]
            == e0.positional.white_pawns_per_file[f] + ppf_loses(true, uw, m, f) - ppf_gains(
            true,
            uw,
            m,
            f,
        ))
    &&& (forall|f: int|
        0 <= f < 8 ==> #[trigger] e1.positional.black_pawns_per_file[f]
            == e0.positional.black_pawns_per_file[f] + ppf_loses(false, uw, m, f) - ppf_gains(
            false,
            uw,
            m,
            f,
        ))
    &&& e1.pawn_table == e0.pawn_table
}

/// What `unmake_move` needs of the state: the counts it decrements (the
/// promotion's piece, any pawn the move placed) must be positive and the
/// sums in range.
pub open spec fn eval_unmake_applicable(e: Eval, uw: bool, m: Move) -> bool {
    &&& m.from < 64
    &&& m.to < 64
    &&& (m.en_passant ==> 0 <= ep_victim(uw, m.to as int) < 64)
    &&& (crate::position::is_ks_castle(m) ==> m.to <= 62)
    &&& (crate::position::is_qs_castle(m) ==> m.to >= 2)
    &&& -30000 <= e.pst[0] <= 30000
    &&& -30000 <= e.pst[1] <= 30000
    &&& (m.piece is Pawn && m.promoted is None ==> (if uw {
        e.positional.white_pawns_per_file[file_of(m.to as int)]
    } else {
        e.positional.black_pawns_per_file[file_of(m.to as int)]
    }) >= 1)
    &&& (m.promoted == Some(Piece::Knight) ==> (if uw {
        e.material.white_knights >= 1
    } else {
        e.material.black_knights >= 1
    }))
    &&& (m.promoted == Some(Piece::Bishop) ==> (if uw {
        e.material.white_bishops >= 1
    } else {
        e.material.black_bishops >= 1
    }))
    &&& (m.promoted == Some(Piece::Rook) ==> (if uw {
        e.material.white_rooks >= 1
    } else {
        e.material.black_rooks >= 1
    }))
    &&& (m.promoted == Some(Piece::Queen) ==> (if uw {
        e.material.white_queens >= 1
    } else {
        e.material.black_queens >= 1
    }))
    &&& (m.promoted is Some ==> m.piece is Pawn)
    &&& e.material.white_pawns < 100000
    &&& e.material.white_knights < 100000
    &&& e.material.white_bishops < 100000
    &&& e.material.white_rooks < 100000
    &&& e.material.white_queens < 100000
    &&& e.material.black_pawns < 100000
    &&& e.material.black_knights < 100000
    &&& e.material.black_bishops < 100000
    &&& e.material.black_rooks < 100000
    &&& e.material.black_queens < 100000
    &&& (forall|f: int|
        0 <= f < 8 ==> #[trigger] e.positional.white_pawns_per_file[f] < 100000)
    &&& (forall|f: int|
        0 <= f < 8 ==> #[trigger] e.positional.black_pawns_per_file[f] < 100000)
}

/// Make/unmake round trip for the evaluation: retracting a move that was
/// just mirrored restores the material counts, the piece-square sums and the
/// per-file pawn counts exactly.
#[verifier::rlimit(100)]
pub proof fn lemma_eval_make_unmake(e0: Eval, e1: Eval, e2: Eval, white: bool, m: Move)
    requires
        eval_applicable(e0, white, m),
        eval_make_rel(e0, e1, white, m),
        eval_unmake_rel(e1, e2, white, m),
    ensures
        e2 == e0,
{
    assert(e2.material == e0.material);
    assert(e2.pst =~= e0.pst);
    assert(e2.positional.white_pawns_per_file =~= e0.positional.white_pawns_per_file);
    assert(e2.positional.black_pawns_per_file =~= e0.positional.black_pawns_per_file);
    assert(e2 =~= e0);
}

impl Eval {
    /// Mirror `mov` into the evaluation before the position plays it.
    #[verifier::rlimit(100)]
    #[verifier::spinoff_prover]
    pub fn make_move(&mut self, mov: Move, pos: &Position)
        requires
            eval_applicable(*old(self), pos.white_to_move, mov),
        ensures
            eval_make_rel(*old(self), *final (self), pos.white_to_move, mov),
    {
        let ghost e0 = *self;
        let w = pos.white_to_move;
        let us: usize = if w {
            1
        } else {
            0
        };
        let them: usize = 1 - us;

        let from_table = piece_pst(mov.piece);
        self.pst[us] = self.pst[us] - pst(&from_table, w, mov.from);

        match mov.promoted {
            Some(promotion_piece) => {
                let promo_table = piece_pst(promotion_piece);
                self.pst[us] = self.pst[us] + pst(&promo_table, w, mov.to);
            },
            None => {
                self.pst[us] = self.pst[us] + pst(&from_table, w, mov.to);
            },
        }

        match mov.captured {
            Some(captured_piece) => {
                if mov.en_passant {
                    let pawn_table = piece_pst(Piece::Pawn);
                    let victim: u8 = if w {
                        mov.to - 8
                    } else {
                        mov.to + 8
                    };
                    self.pst[them] = self.pst[them] - pst(&pawn_table, !w, victim);
                } else {
                    let cap_table = piece_pst(captured_piece);
                    self.pst[them] = self.pst[them] - pst(&cap_table, !w, mov.to);
                }
            },
            None => {},
        }

        if mov.piece.index() == 0 {
            if w {
                let f = (mov.from % 8) as usize;
                self.positional.white_pawns_per_file[f] = self.positional.white_pawns_per_file[f]
                    - 1;
            } else {
                let f = (mov.from % 8) as usize;
                self.positional.black_pawns_per_file[f] = self.positional.black_pawns_per_file[f]
                    - 1;
            }
        }

        match mov.captured {
            Some(Piece::Pawn) => {
                let f = (mov.to % 8) as usize;
                if w {
                    self.positional.black_pawns_per_file[f] =
                        self.positional.black_pawns_per_file[f] - 1;
                    self.material.black_pawns = self.material.black_pawns - 1;
                } else {
                    self.positional.white_pawns_per_file[f] =
                        self.positional.white_pawns_per_file[f] - 1;
                    self.material.white_pawns = self.material.white_pawns - 1;
                }
            },
            Some(Piece::Knight) => {
                if w {
                    self.material.black_knights = self.material.black_knights - 1;
                } else {
                    self.material.white_knights = self.material.white_knights - 1;
                }
            },
            Some(Piece::Bishop) => {
                if w {
                    self.material.black_bishops = self.material.black_bishops - 1;
                } else {
                    self.material.white_bishops = self.material.white_bishops - 1;
                }
            },
            Some(Piece::Rook) => {
                if w {
                    self.material.black_rooks = self.material.black_rooks - 1;
                } else {
                    self.material.white_rooks = self.material.white_rooks - 1;
                }
            },
            Some(Piece::Queen) => {
                if w {
                    self.material.black_queens = self.material.black_queens - 1;
                } else {
                    self.material.white_queens = self.material.white_queens - 1;
                }
            },
            _ => {},
        }

        match mov.piece {
            Piece::Pawn => {
                match mov.promoted {
                    None => {
                        let f = (mov.to % 8) as usize;
                        if w {
                            self.positional.white_pawns_per_file[f] =
                                self.positional.white_pawns_per_file[f] + 1;
                        } else {
                            self.positional.black_pawns_per_file[f] =
                                self.positional.black_pawns_per_file[f] + 1;
                        }
                    },
                    Some(Piece::Knight) => {
                        if w {
                            self.material.white_pawns = self.material.white_pawns - 1;
                            self.material.white_knights = self.material.white_knights + 1;
                        } else {
                            self.material.black_pawns = self.material.black_pawns - 1;
                            self.material.black_knights = self.material.black_knights + 1;
                        }
                    },
                    Some(Piece::Bishop) => {
                        if w {
                            self.material.white_pawns = self.material.white_pawns - 1;
                            self.material.white_bishops = self.material.white_bishops + 1;
                        } else {
                            self.material.black_pawns = self.material.black_pawns - 1;
                            self.material.black_bishops = self.material.black_bishops + 1;
                        }
                    },
                    Some(Piece::Rook) => {
                        if w {
                            self.material.white_pawns = self.material.white_pawns - 1;
                            self.material.white_rooks = self.material.white_rooks + 1;
                        } else {
                            self.material.black_pawns = self.material.black_pawns - 1;
                            self.material.black_rooks = self.material.black_rooks + 1;
                        }
                    },
                    Some(Piece::Queen) => {
                        if w {
                            self.material.white_pawns = self.material.white_pawns - 1;
                            self.material.white_queens = self.material.white_queens + 1;
                        } else {
                            self.material.black_pawns = self.material.black_pawns - 1;
                            self.material.black_queens = self.material.black_queens + 1;
                        }
                    },
                    _ => {},
                }
            },
            Piece::King => {
                let rook_table = piece_pst(Piece::Rook);
                if mov.to == mov.from + 2 {
                    self.pst[us] = self.pst[us] - pst(&rook_table, w, mov.to + 1);
                    self.pst[us] = self.pst[us] + pst(&rook_table, w, mov.to - 1);
                } else if mov.from == mov.to + 2 {
                    self.pst[us] = self.pst[us] - pst(&rook_table, w, mov.to - 2);
                    self.pst[us] = self.pst[us] + pst(&rook_table, w, mov.to + 1);
                }
            },
            _ => {},
        }
        proof {
            assert(self.material == material_after(e0.material, w, mov));
            assert(self.pawn_table == e0.pawn_table);
            assert(forall|f: int|
                0 <= f < 8 ==> #[trigger] self.positional.white_pawns_per_file[f]
                    == e0.positional.white_pawns_per_file[f] - ppf_loses(true, w, mov, f)
                    + ppf_gains(true, w, mov, f));
            assert(forall|f: int|
                0 <= f < 8 ==> #[trigger] self.positional.black_pawns_per_file[f]
                    == e0.positional.black_pawns_per_file[f] - ppf_loses(false, w, mov, f)
                    + ppf_gains(false, w, mov, f));
            assert(self.pst =~= pst_after(e0, w, mov));
        }
    }

    /// Mirror the retraction of `mov` into the evaluation; `pos` is the
    /// position before `Position::unmake_move` runs.
    #[verifier::rlimit(100)]
    #[verifier::spinoff_prover]
    pub fn unmake_move(&mut self, mov: Move, pos: &Position)
        requires
            eval_unmake_applicable(*old(self), !pos.white_to_move, mov),
        ensures
            eval_unmake_rel(*old(self), *final (self), !pos.white_to_move, mov),
    {
        let ghost e0 = *self;
        let unmaking_white_move = !pos.white_to_move;
        let uw = unmaking_white_move;
        let us: usize = if uw {
            1
        } else {
            0
        };
        let them: usize = 1 - us;

        let from_table = piece_pst(mov.piece);
        self.pst[us] = self.pst[us] + pst(&from_table, uw, mov.from);

        match mov.promoted {
            Some(promotion_piece) => {
                let promo_table = piece_pst(promotion_piece);
                self.pst[us] = self.pst[us] - pst(&promo_table, uw, mov.to);
            },
            None => {
                self.pst[us] = self.pst[us] - pst(&from_table, uw, mov.to);
            },
        }

        match mov.captured {
            Some(captured_piece) => {
                if mov.en_passant {
                    let pawn_table = piece_pst(Piece::Pawn);
                    let victim: u8 = if uw {
                        mov.to - 8
                    } else {
                        mov.to + 8
                    };
                    self.pst[them] = self.pst[them] + pst(&pawn_table, !uw, victim);
                } else {
                    let cap_table = piece_pst(captured_piece);
                    self.pst[them] = self.pst[them] + pst(&cap_table, !uw, mov.to);
                }
            },
            None => {},
        }

        match mov.piece {
            Piece::Pawn => {
                let f = (mov.from % 8) as usize;
                if uw {
                    let v = self.positional.white_pawns_per_file[f];
                    self.positional.white_pawns_per_file[f] = v + 1;
                } else {
                    let v = self.positional.black_pawns_per_file[f];
                    self.positional.black_pawns_per_file[f] = v + 1;
                }
            },
            Piece::King => {
                let rook_table = piece_pst(Piece::Rook);
                if mov.to == mov.from + 2 {
                    self.pst[us] = self.pst[us] + pst(&rook_table, uw, mov.to + 1);
                    self.pst[us] = self.pst[us] - pst(&rook_table, uw, mov.to - 1);
                } else if mov.from == mov.to + 2 {
                    self.pst[us] = self.pst[us] + pst(&rook_table, uw, mov.to - 2);
                    self.pst[us] = self.pst[us] - pst(&rook_table, uw, mov.to + 1);
                }
            },
            _ => {},
        }

        match mov.captured {
            Some(Piece::Pawn) => {
                let f = (mov.to % 8) as usize;
                if uw {
                    self.positional.black_pawns_per_file[f] =
                        self.positional.black_pawns_per_file[f] + 1;
                    self.material.black_pawns = self.material.black_pawns + 1;
                } else {
                    self.positional.white_pawns_per_file[f] =
                        self.positional.white_pawns_per_file[f] + 1;
                    self.material.white_pawns = self.material.white_pawns + 1;
                }
            },
            Some(Piece::Knight) => {
                if uw {
                    self.material.black_knights = self.material.black_knights + 1;
                } else {
                    self.material.white_knights = self.material.white_knights + 1;
                }
            },
            Some(Piece::Bishop) => {
                if uw {
                    self.material.black_bishops = self.material.black_bishops + 1;
                } else {
                    self.material.white_bishops = self.material.white_bishops + 1;
                }
            },
            Some(Piece::Rook) => {
                if uw {
                    self.material.black_rooks = self.material.black_rooks + 1;
                } else {
                    self.material.white_rooks = self.material.white_rooks + 1;
                }
            },
            Some(Piece::Queen) => {
                if uw {
                    self.material.black_queens = self.material.black_queens + 1;
                } else {
                    self.material.white_queens = self.material.white_queens + 1;
                }
            },
            _ => {},
        }

        if mov.piece.index() == 0 {
            match mov.promoted {
                None => {
                    let f = (mov.to % 8) as usize;
                    if uw {
                        self.positional.white_pawns_per_file[f] =
                            self.positional.white_pawns_per_file[f] - 1;
                    } else {
                        self.positional.black_pawns_per_file[f] =
                            self.positional.black_pawns_per_file[f] - 1;
                    }
                },
                Some(Piece::Knight) => {
                    if uw {
                        self.material.white_pawns = self.material.white_pawns + 1;
                        self.material.white_knights = self.material.white_knights - 1;
                    } else {
                        self.material.black_pawns = self.material.black_pawns + 1;
                        self.material.black_knights = self.material.black_knights - 1;
                    }
                },
                Some(Piece::Bishop) => {
                    if uw {
                        self.material.white_pawns = self.material.white_pawns + 1;
                        self.material.white_bishops = self.material.white_bishops - 1;
                    } else {
                        self.material.black_pawns = self.material.black_pawns + 1;
                        self.material.black_bishops = self.material.black_bishops - 1;
                    }
                },
                Some(Piece::Rook) => {
                    if uw {
                        self.material.white_pawns = self.material.white_pawns + 1;
                        self.material.white_rooks = self.material.white_rooks - 1;
                    } else {
                        self.material.black_pawns = self.material.black_pawns + 1;
                        self.material.black_rooks = self.material.black_rooks - 1;
                    }
                },
                Some(Piece::Queen) => {
                    if uw {
                        self.material.white_pawns = self.material.white_pawns + 1;
                        self.material.white_queens = self.material.white_queens - 1;
                    } else {
                        self.material.black_pawns = self.material.black_pawns + 1;
                        self.material.black_queens = self.material.black_queens - 1;
                    }
                },
                _ => {},
            }
        }
        proof {
            assert(self.material == material_before(e0.material, uw, mov));
            assert(self.pawn_table == e0.pawn_table);
            assert(forall|f: int|
                0 <= f < 8 ==> #[trigger] self.positional.white_pawns_per_file[f]
                    == e0.positional.white_pawns_per_file[f] + ppf_loses(true, uw, mov, f)
                    - ppf_gains(true, uw, mov, f));
            assert(forall|f: int|
                0 <= f < 8 ==> #[trigger] self.positional.black_pawns_per_file[f]
                    == e0.positional.black_pawns_per_file[f] + ppf_loses(false, uw, mov, f)
                    - ppf_gains(false, uw, mov, f));
            assert(self.pst =~= pst_before(e0, uw, mov));
        }
    }
}


/// The per-file penalty for stacking own pawns on one file.
pub open spec fn doubling_penalty(n: int) -> int {
    if n <= 1 {
        0
    } else if n == 2 {
        25
    } else if n == 3 {
        60
    } else if n == 4 {
        90
    } else if n == 5 {
        140
    } else if n == 6 {
        200
    } else {
        270
    }
}

/// The doubling score from file `f` on: Black's penalties count for White
/// and White's against.
pub open spec fn doubling_spec(pos: Positional, f: int) -> int
    decreases 8 - f,
{
    if f < 0 || f >= 8 {
        0int
    } else {
        doubling_penalty(pos.black_pawns_per_file[f] as int) - doubling_penalty(
            pos.white_pawns_per_file[f] as int,
        ) + doubling_spec(pos, f + 1)
    }
}

impl Positional {
    /// The pawn-doubling score, White minus Black: each side loses the
    /// penalty for every file it stacks pawns on.
    pub fn score(&self) -> (r: Score)
        requires
            forall|f: int| 0 <= f < 8 ==> #[trigger] self.white_pawns_per_file[f] <= 7,
            forall|f: int| 0 <= f < 8 ==> #[trigger] self.black_pawns_per_file[f] <= 7,
        ensures
            r == doubling_spec(*self, 0),
    {
        let penalty: [i16; 8] = [0, 0, 25, 60, 90, 140, 200, 270];
        proof {
            assert(forall|n: int|
                0 <= n <= 7 ==> penalty@[n] == doubling_penalty(n));
        }
        let mut score: i16 = 0;
        let mut f: usize = 0;
        while f < 8
            invariant
                f <= 8,
                forall|k: int| 0 <= k < 8 ==> #[trigger] self.white_pawns_per_file[k] <= 7,
                forall|k: int| 0 <= k < 8 ==> #[trigger] self.black_pawns_per_file[k] <= 7,
                -270 * f <= score <= 270 * f,
                penalty@ == seq![0i16, 0, 25, 60, 90, 140, 200, 270],
                score + doubling_spec(*self, f as int) == doubling_spec(*self, 0),
            decreases 8 - f,
        {
            proof {
                assert(penalty@[self.black_pawns_per_file[f as int] as int] == doubling_penalty(
                    self.black_pawns_per_file[f as int] as int,
                ));
                assert(penalty@[self.white_pawns_per_file[f as int] as int] == doubling_penalty(
                    self.white_pawns_per_file[f as int] as int,
                ));
            }
            score = score - penalty[self.white_pawns_per_file[f]];
            score = score + penalty[self.black_pawns_per_file[f]];
            f += 1;
        }
        score
    }
}

/// The rook-file score of the squares `rooks` for the side owning
/// `own_pawns`: an open file is worth 15, a half-open file 5.
pub open spec fn rook_files_spec(all_pawns: u64, own_pawns: u64, rooks: Seq<u64>, k: int) -> int
    decreases rooks.len() - k,
{
    if k < 0 || k >= rooks.len() {
        0int
    } else {
        let fb = crate::attacks::file_bb(file_of(rooks[k] as int));
        (if all_pawns & fb == 0 {
            15int
        } else if own_pawns & fb == 0 {
            5int
        } else {
            0int
        }) + rook_files_spec(all_pawns, own_pawns, rooks, k + 1)
    }
}

impl Eval {
    /// The rook-file bonus of one side: 15 per rook on a file with no pawns,
    /// 5 per rook on a file with no own pawns.
    pub fn rooks_for_side(&self, pos: &Position, white: bool) -> (r: Score)
        ensures
            r == rook_files_spec(
                pos.bb[0],
                pos.bb[0] & pos.pieces[side_idx(white)],
                crate::bitboard::sq_list(pos.bb[3] & pos.pieces[side_idx(white)]),
                0,
            ),
    {
        let us = pos.us(white);
        let own_pawns = pos.pawns() & us;
        let rooks = crate::bitboard::squares(pos.rooks() & us);
        let ghost glist = crate::bitboard::sq_list(pos.bb[3] & pos.pieces[side_idx(white)]);
        proof {
            crate::bitboard::lemma_sq_list_members(pos.bb[3] & pos.pieces[side_idx(white)]);
            crate::bitboard::lemma_popcnt_le_64(pos.bb[3] & pos.pieces[side_idx(white)]);
        }
        let mut score: i16 = 0;
        let mut k: usize = 0;
        while k < rooks.len()
            invariant
                k <= rooks@.len(),
                rooks@.len() <= 64,
                rooks@.map_values(|s: Square| s as u64) == glist,
                forall|j: int| 0 <= j < rooks@.len() ==> rooks@[j] < 64,
                own_pawns == pos.bb[0] & pos.pieces[side_idx(white)],
                0 <= score <= 15 * k,
                score + rook_files_spec(pos.bb[0], own_pawns, glist, k as int) == rook_files_spec(
                    pos.bb[0],
                    own_pawns,
                    glist,
                    0,
                ),
            decreases rooks@.len() - k,
        {
            let rook = rooks[k];
            let file_bb = crate::bitboard::right(crate::bitboard::FILE_A, rook % 8);
            proof {
                crate::attacks::lemma_file_bb_shift(rook % 8);
                assert(file_bb == crate::attacks::file_bb(file_of(rook as int)));
            }
            if pos.pawns() & file_bb == 0 {
                score += 15;
            } else if own_pawns & file_bb == 0 {
                score += 5;
            }
            k += 1;
        }
        score
    }

    /// The game phase: the non-pawn material weight of both sides.
    pub fn phase(&self) -> (r: i16)
        requires
            self.material.wf(),
        ensures
            r == self.material.non_pawn_spec(),
    {
        self.material.non_pawn_material()
    }
}


/// The distance of each square from the board centre, 0 to 3.
pub open spec fn center_distance_seq() -> Seq<i16> {
    seq![
        3i16, 3, 3, 3, 3, 3, 3, 3, 3, 2, 2, 2, 2, 2, 2, 3, 3, 2, 1, 1, 1, 1, 2, 3, 3, 2, 1, 0,
        0, 1, 2, 3, 3, 2, 1, 0, 0, 1, 2, 3, 3, 2, 1, 1, 1, 1, 2, 3, 3, 2, 2, 2, 2, 2, 2, 3, 3,
        3, 3, 3, 3, 3, 3, 3,
    ]
}

/// Whether king safety is skipped for this side: the opponent has no queen
/// and at most one rook.
pub open spec fn king_safety_skipped(mat: Material, white: bool) -> bool {
    if white {
        mat.black_queens == 0 && mat.black_rooks <= 1
    } else {
        mat.white_queens == 0 && mat.white_rooks <= 1
    }
}

/// The (midgame, endgame) king-safety terms of one side: zero and a small
/// centre-distance pull when the opponent lacks heavy pieces; otherwise the
/// square of a danger index built from missing shield pawns, advancing enemy
/// pawns, and open or rook-shared files.
pub open spec fn king_safety_side_spec(mat: Material, p: Position, white: bool) -> (int, int) {
    let us = p.pieces[side_idx(white)];
    let them = !us;
    let king = p.bb[5] & us;
    let ks = p.king_sq[side_idx(white)] as int;
    let eg_penalty = center_distance_seq()[ks] as int;
    if king_safety_skipped(mat, white) {
        (0int, -5 * eg_penalty)
    } else {
        let king_file = crate::attacks::file_bb(file_of(ks));
        let adjacent = crate::bitboard::shift_left(king, 1) | king | crate::bitboard::shift_right(
            king,
            1,
        );
        let front = crate::bitboard::shift_forward(white, adjacent, 1);
        let distant_front = crate::bitboard::shift_forward(white, adjacent, 2);
        let i0 = (3 - popcnt(front & p.bb[0] & us)) * 2;
        let i1 = i0 + 3 - popcnt(distant_front & p.bb[0] & us);
        let i2 = i1 + popcnt(front & p.bb[0] & them);
        let i3 = i2 + popcnt(distant_front & p.bb[0] & them);
        let i4 = if king_file & p.bb[0] == 0 {
            i3 + 2
        } else {
            i3
        };
        let i5 = if popcnt(king_file & p.bb[0]) == 1 {
            i4 + 1
        } else {
            i4
        };
        let i6 = if king_file & p.bb[3] & them != 0 {
            i5 + 1
        } else {
            i5
        };
        (-(i6 * i6), -5 * eg_penalty)
    }
}

/// The three files around the king fan out into single-square terms under a
/// rank shift, and each term holds at most one square.
proof fn lemma_king_zone_parts(sq: u64)
    by (bit_vector)
    requires
        sq < 64,
    ensures
        ({
            let b = 1u64 << sq;
            let lb = crate::bitboard::shift_left(b, 1);
            let rb = crate::bitboard::shift_right(b, 1);
            let row = lb | b | rb;
            &&& crate::bitboard::shift_forward(true, row, 1) == crate::bitboard::shift_forward(
                true,
                lb,
                1,
            ) | crate::bitboard::shift_forward(true, b, 1) | crate::bitboard::shift_forward(
                true,
                rb,
                1,
            )
            &&& crate::bitboard::shift_forward(false, row, 1) == crate::bitboard::shift_forward(
                false,
                lb,
                1,
            ) | crate::bitboard::shift_forward(false, b, 1) | crate::bitboard::shift_forward(
                false,
                rb,
                1,
            )
            &&& crate::bitboard::shift_forward(true, row, 2) == crate::bitboard::shift_forward(
                true,
                lb,
                2,
            ) | crate::bitboard::shift_forward(true, b, 2) | crate::bitboard::shift_forward(
                true,
                rb,
                2,
            )
            &&& crate::bitboard::shift_forward(false, row, 2) == crate::bitboard::shift_forward(
                false,
                lb,
                2,
            ) | crate::bitboard::shift_forward(false, b, 2) | crate::bitboard::shift_forward(
                false,
                rb,
                2,
            )
            &&& (crate::bitboard::shift_forward(true, lb, 1) == 0 || crate::bitboard::shift_forward(true, lb, 1) & ((crate::bitboard::shift_forward(true, lb, 1) - 1) as u64) == 0)
            &&& (crate::bitboard::shift_forward(true, b, 1) == 0 || crate::bitboard::shift_forward(true, b, 1) & ((crate::bitboard::shift_forward(true, b, 1) - 1) as u64) == 0)
            &&& (crate::bitboard::shift_forward(true, rb, 1) == 0 || crate::bitboard::shift_forward(true, rb, 1) & ((crate::bitboard::shift_forward(true, rb, 1) - 1) as u64) == 0)
            &&& (crate::bitboard::shift_forward(true, lb, 2) == 0 || crate::bitboard::shift_forward(true, lb, 2) & ((crate::bitboard::shift_forward(true, lb, 2) - 1) as u64) == 0)
            &&& (crate::bitboard::shift_forward(true, b, 2) == 0 || crate::bitboard::shift_forward(true, b, 2) & ((crate::bitboard::shift_forward(true, b, 2) - 1) as u64) == 0)
            &&& (crate::bitboard::shift_forward(true, rb, 2) == 0 || crate::bitboard::shift_forward(true, rb, 2) & ((crate::bitboard::shift_forward(true, rb, 2) - 1) as u64) == 0)
            &&& (crate::bitboard::shift_forward(false, lb, 1) == 0 || crate::bitboard::shift_forward(false, lb, 1) & ((crate::bitboard::shift_forward(false, lb, 1) - 1) as u64) == 0)
            &&& (crate::bitboard::shift_forward(false, b, 1) == 0 || crate::bitboard::shift_forward(false, b, 1) & ((crate::bitboard::shift_forward(false, b, 1) - 1) as u64) == 0)
            &&& (crate::bitboard::shift_forward(false, rb, 1) == 0 || crate::bitboard::shift_forward(false, rb, 1) & ((crate::bitboard::shift_forward(false, rb, 1) - 1) as u64) == 0)
            &&& (crate::bitboard::shift_forward(false, lb, 2) == 0 || crate::bitboard::shift_forward(false, lb, 2) & ((crate::bitboard::shift_forward(false, lb, 2) - 1) as u64) == 0)
            &&& (crate::bitboard::shift_forward(false, b, 2) == 0 || crate::bitboard::shift_forward(false, b, 2) & ((crate::bitboard::shift_forward(false, b, 2) - 1) as u64) == 0)
            &&& (crate::bitboard::shift_forward(false, rb, 2) == 0 || crate::bitboard::shift_forward(false, rb, 2) & ((crate::bitboard::shift_forward(false, rb, 2) - 1) as u64) == 0)
        }),
{
}

/// A bitboard that is zero or a power of two holds at most one square.
proof fn lemma_count_le1(x: u64)
    requires
        x == 0 || x & ((x - 1) as u64) == 0,
    ensures
        popcnt(x) <= 1,
{
    if x != 0 {
        crate::bitboard::lemma_clear_lowest_bit(x);
        crate::bitboard::lemma_popcnt_zero(x & ((x - 1) as u64));
    }
}

/// Either shifted rank of the king zone holds at most three squares.
proof fn lemma_king_zone_popcnt(ks: int, king: u64, w: bool, n: int)
    requires
        0 <= ks < 64,
        king == bit(ks),
        n == 1 || n == 2,
    ensures
        popcnt(
            crate::bitboard::shift_forward(
                w,
                crate::bitboard::shift_left(king, 1) | king | crate::bitboard::shift_right(
                    king,
                    1,
                ),
                n,
            ),
        ) <= 3,
{
    lemma_king_zone_parts(ks as u64);
    let b = 1u64 << (ks as u64);
    assert(king == b);
    let lb = crate::bitboard::shift_left(b, 1);
    let rb = crate::bitboard::shift_right(b, 1);
    let t1 = crate::bitboard::shift_forward(w, lb, n);
    let t2 = crate::bitboard::shift_forward(w, b, n);
    let t3 = crate::bitboard::shift_forward(w, rb, n);
    lemma_count_le1(t1);
    lemma_count_le1(t2);
    lemma_count_le1(t3);
    crate::bitboard::lemma_popcnt_or_le(t1, t2);
    crate::bitboard::lemma_popcnt_or_le(t1 | t2, t3);
}

impl Eval {
    /// The (midgame, endgame) king-safety terms of one side.
    pub fn king_safety_for_side(&self, pos: &Position, white: bool) -> (r: (Score, Score))
        requires
            pos.kings_ok(),
        ensures
            r.0 == king_safety_side_spec(self.material, *pos, white).0,
            r.1 == king_safety_side_spec(self.material, *pos, white).1,
            -361 <= r.0 <= 0,
            -15 <= r.1 <= 0,
    {
        let us = pos.us(white);
        let them = !us;
        let center_distance: [i16; 64] = [
            3, 3, 3, 3, 3, 3, 3, 3, 3, 2, 2, 2, 2, 2, 2, 3, 3, 2, 1, 1, 1, 1, 2, 3, 3, 2, 1, 0,
            0, 1, 2, 3, 3, 2, 1, 0, 0, 1, 2, 3, 3, 2, 1, 1, 1, 1, 2, 3, 3, 2, 2, 2, 2, 2, 2, 3,
            3, 3, 3, 3, 3, 3, 3, 3,
        ];
        proof {
            assert(center_distance@ =~= center_distance_seq());
        }
        let king = pos.kings() & us;
        let king_sq = pos.king_sq(white);
        let eg_penalty = center_distance[king_sq as usize];
        proof {
            assert(forall|i: int| 0 <= i < 64 ==> 0 <= #[trigger] center_distance_seq()[i] <= 3);
            assert(0 <= eg_penalty <= 3);
        }

        let skip_king_safety = if white {
            self.material.black_queens == 0 && self.material.black_rooks <= 1
        } else {
            self.material.white_queens == 0 && self.material.white_rooks <= 1
        };
        if skip_king_safety {
            proof {
                assert(0 <= eg_penalty <= 3);
                assert(-15 <= -5 * eg_penalty <= 0);
            }
            return (0, -5 * eg_penalty);
        }

        let file = crate::bitboard::file(king_sq);
        let king_file = crate::bitboard::right(crate::bitboard::FILE_A, file);
        proof {
            crate::attacks::lemma_file_bb_shift(file);
        }
        let adjacent_files = crate::bitboard::left(king, 1) | king | crate::bitboard::right(
            king,
            1,
        );
        let front = crate::bitboard::forward(white, adjacent_files, 1);
        let distant_front = crate::bitboard::forward(white, adjacent_files, 2);
        proof {
            lemma_king_zone_popcnt(king_sq as int, king, white, 1);
            lemma_king_zone_popcnt(king_sq as int, king, white, 2);
            crate::bitboard::lemma_popcnt_and_le(front, pos.bb[0]);
            crate::bitboard::lemma_popcnt_and_le(front & pos.bb[0], us);
            crate::bitboard::lemma_popcnt_and_le(front & pos.bb[0], them);
            crate::bitboard::lemma_popcnt_and_le(distant_front, pos.bb[0]);
            crate::bitboard::lemma_popcnt_and_le(distant_front & pos.bb[0], us);
            crate::bitboard::lemma_popcnt_and_le(distant_front & pos.bb[0], them);
        }

        let mut index: u32 = 0;
        index += (3 - crate::bitboard::popcount(front & pos.pawns() & us)) * 2;
        index += 3 - crate::bitboard::popcount(distant_front & pos.pawns() & us);
        index += crate::bitboard::popcount(front & pos.pawns() & them);
        index += crate::bitboard::popcount(distant_front & pos.pawns() & them);

        if king_file & pos.pawns() == 0 {
            index += 2;
        }
        if crate::bitboard::popcount(king_file & pos.pawns()) == 1 {
            index += 1;
        }
        if king_file & pos.rooks() & them != 0 {
            index += 1;
        }

        proof {
            assert(index <= 19);
            assert(index * index <= 361) by (nonlinear_arith)
                requires
                    index <= 19,
            ;
        }
        let mg_penalty = (index * index) as i16;
        (-mg_penalty, -5 * eg_penalty)
    }

    /// The (midgame, endgame) king-safety balance, White minus Black.
    pub fn king_safety(&self, pos: &Position) -> (r: (Score, Score))
        requires
            pos.kings_ok(),
        ensures
            r.0 == king_safety_side_spec(self.material, *pos, true).0 - king_safety_side_spec(
                self.material,
                *pos,
                false,
            ).0,
            r.1 == king_safety_side_spec(self.material, *pos, true).1 - king_safety_side_spec(
                self.material,
                *pos,
                false,
            ).1,
    {
        let (wmg, weg) = self.king_safety_for_side(pos, true);
        let (bmg, beg) = self.king_safety_for_side(pos, false);
        (wmg - bmg, weg - beg)
    }
}



/// The passed-pawn corridor: every square strictly ahead of the pawn on its
/// own and the two adjacent files.
pub open spec fn pawn_corridor(white: bool, sq: int) -> u64 {
    let fb = crate::attacks::file_bb(file_of(sq));
    let lanes = crate::bitboard::shift_left(fb, 1) | fb | crate::bitboard::shift_right(fb, 1);
    let r = rank_of(sq);
    let ahead: u64 = if white {
        if r < 7 {
            0xFFFF_FFFF_FFFF_FFFFu64 << ((8 * (r + 1)) as u64)
        } else {
            0u64
        }
    } else {
        if r > 0 {
            0xFFFF_FFFF_FFFF_FFFFu64 >> ((8 * (8 - r)) as u64)
        } else {
            0u64
        }
    };
    lanes & ahead
}

/// The midgame bonus of an undoubled passed pawn by its promotion distance.
pub open spec fn passer_mg(relative_rank: int) -> int {
    if relative_rank <= 0 {
        0
    } else if relative_rank == 1 {
        60
    } else if relative_rank == 2 {
        50
    } else if relative_rank == 3 {
        40
    } else if relative_rank == 4 {
        30
    } else if relative_rank == 5 {
        20
    } else if relative_rank == 6 {
        10
    } else {
        0
    }
}

/// The endgame bonus of an undoubled passed pawn by its promotion distance.
pub open spec fn passer_eg(relative_rank: int) -> int {
    if relative_rank <= 0 {
        0
    } else if relative_rank == 1 {
        160
    } else if relative_rank == 2 {
        80
    } else if relative_rank == 3 {
        40
    } else if relative_rank == 4 {
        20
    } else if relative_rank == 5 {
        10
    } else if relative_rank == 6 {
        10
    } else {
        0
    }
}

/// The (midgame, endgame) structure terms of one pawn: the passer bonus when
/// its corridor holds no enemy pawn and no own pawn doubles it, and the
/// isolation penalty when no own pawn guards an adjacent file.
pub open spec fn pawn_terms(p: Position, white: bool, sq: int) -> (int, int) {
    let us = p.pieces[side_idx(white)];
    let them = !us;
    let corridor = pawn_corridor(white, sq);
    let fb = crate::attacks::file_bb(file_of(sq));
    let file_forward = corridor & fb;
    let passed = corridor & them & p.bb[0] == 0;
    let doubled = file_forward & us & p.bb[0] != 0;
    let relative_rank = if white {
        7 - rank_of(sq)
    } else {
        rank_of(sq)
    };
    let base = if passed && !doubled {
        (passer_mg(relative_rank), passer_eg(relative_rank))
    } else {
        (0int, 0int)
    };
    let isolated = (crate::bitboard::shift_left(fb, 1) | crate::bitboard::shift_right(fb, 1))
        & p.bb[0] & us == 0;
    if isolated {
        (base.0 - 10, if passed {
            base.1
        } else {
            base.1 - 10
        })
    } else {
        base
    }
}

/// The summed pawn-structure terms of the pawns in `list` from `k` on.
pub open spec fn pawn_struct_spec(p: Position, white: bool, list: Seq<u64>, k: int) -> (int, int)
    decreases list.len() - k,
{
    if k < 0 || k >= list.len() {
        (0int, 0int)
    } else {
        let t = pawn_terms(p, white, list[k] as int);
        let rest = pawn_struct_spec(p, white, list, k + 1);
        (t.0 + rest.0, t.1 + rest.1)
    }
}

impl Eval {
    /// The (midgame, endgame) pawn-structure terms of one side: passer
    /// bonuses and isolation penalties summed over its pawns.
    pub fn pawns_for_side(&self, pos: &Position, white: bool) -> (r: (Score, Score))
        ensures
            r.0 == pawn_struct_spec(
                *pos,
                white,
                crate::bitboard::sq_list(pos.bb[0] & pos.pieces[side_idx(white)]),
                0,
            ).0,
            r.1 == pawn_struct_spec(
                *pos,
                white,
                crate::bitboard::sq_list(pos.bb[0] & pos.pieces[side_idx(white)]),
                0,
            ).1,
            -640 <= r.0 <= 3840,
            -640 <= r.1 <= 10240,
    {
        let us = pos.us(white);
        let pawns = crate::bitboard::squares(pos.pawns() & us);
        let ghost glist = crate::bitboard::sq_list(pos.bb[0] & pos.pieces[side_idx(white)]);
        proof {
            crate::bitboard::lemma_sq_list_members(pos.bb[0] & pos.pieces[side_idx(white)]);
            crate::bitboard::lemma_popcnt_le_64(pos.bb[0] & pos.pieces[side_idx(white)]);
        }
        let passer_on_rank_bonus_mg: [i16; 8] = [0, 60, 50, 40, 30, 20, 10, 0];
        let passer_on_rank_bonus_eg: [i16; 8] = [0, 160, 80, 40, 20, 10, 10, 0];
        proof {
            assert(forall|n: int| 0 <= n < 8 ==> passer_on_rank_bonus_mg@[n] == passer_mg(n));
            assert(forall|n: int| 0 <= n < 8 ==> passer_on_rank_bonus_eg@[n] == passer_eg(n));
        }
        let mut mg: i16 = 0;
        let mut eg: i16 = 0;
        let mut k: usize = 0;
        while k < pawns.len()
            invariant
                k <= pawns@.len(),
                pawns@.len() <= 64,
                pawns@.map_values(|s: Square| s as u64) == glist,
                forall|j: int| 0 <= j < pawns@.len() ==> pawns@[j] < 64,
                us == pos.pieces[side_idx(white)],
                passer_on_rank_bonus_mg@ == seq![0i16, 60, 50, 40, 30, 20, 10, 0],
                passer_on_rank_bonus_eg@ == seq![0i16, 160, 80, 40, 20, 10, 10, 0],
                -10 * k <= mg <= 60 * k,
                -10 * k <= eg <= 160 * k,
                ({
                    let rest = pawn_struct_spec(*pos, white, glist, k as int);
                    let total = pawn_struct_spec(*pos, white, glist, 0);
                    mg + rest.0 == total.0 && eg + rest.1 == total.1
                }),
            decreases pawns@.len() - k,
        {
            let pawn = pawns[k];
            let f = pawn % 8;
            let r = pawn / 8;
            let fb = crate::bitboard::right(crate::bitboard::FILE_A, f);
            proof {
                crate::attacks::lemma_file_bb_shift(f);
            }
            let lanes = crate::bitboard::left(fb, 1) | fb | crate::bitboard::right(fb, 1);
            let ahead: u64 = if white {
                if r < 7 {
                    0xFFFF_FFFF_FFFF_FFFFu64 << (8 * (r + 1))
                } else {
                    0
                }
            } else {
                if r > 0 {
                    0xFFFF_FFFF_FFFF_FFFFu64 >> (8 * (8 - r))
                } else {
                    0
                }
            };
            let corridor_bb = lanes & ahead;
            proof {
                assert(corridor_bb == pawn_corridor(white, pawn as int));
            }
            let file_forward_bb = corridor_bb & fb;
            let them = !us;
            let passed = corridor_bb & them & pos.pawns() == 0;
            let doubled = file_forward_bb & us & pos.pawns() != 0;

            if passed && !doubled {
                let relative_rank = if white {
                    (7 - r) as usize
                } else {
                    r as usize
                };
                mg += passer_on_rank_bonus_mg[relative_rank];
                eg += passer_on_rank_bonus_eg[relative_rank];
            }

            if (crate::bitboard::left(fb, 1) | crate::bitboard::right(fb, 1)) & pos.pawns() & us
                == 0 {
                mg -= 10;
                if !passed {
                    eg -= 10;
                }
            }
            k += 1;
        }
        (mg, eg)
    }
}


impl Material {
    /// Count the material of a position.
    pub fn from(pos: &Position) -> (r: Material)
        ensures
            r.white_pawns == popcnt(pos.pieces[1] & pos.bb[0]),
            r.white_knights == popcnt(pos.pieces[1] & pos.bb[1]),
            r.white_bishops == popcnt(pos.pieces[1] & pos.bb[2]),
            r.white_rooks == popcnt(pos.pieces[1] & pos.bb[3]),
            r.white_queens == popcnt(pos.pieces[1] & pos.bb[4]),
            r.black_pawns == popcnt(pos.pieces[0] & pos.bb[0]),
            r.black_knights == popcnt(pos.pieces[0] & pos.bb[1]),
            r.black_bishops == popcnt(pos.pieces[0] & pos.bb[2]),
            r.black_rooks == popcnt(pos.pieces[0] & pos.bb[3]),
            r.black_queens == popcnt(pos.pieces[0] & pos.bb[4]),
    {
        Material {
            white_pawns: crate::bitboard::popcount(pos.white_pieces() & pos.pawns()) as usize,
            white_knights: crate::bitboard::popcount(pos.white_pieces() & pos.knights()) as usize,
            white_bishops: crate::bitboard::popcount(pos.white_pieces() & pos.bishops()) as usize,
            white_rooks: crate::bitboard::popcount(pos.white_pieces() & pos.rooks()) as usize,
            white_queens: crate::bitboard::popcount(pos.white_pieces() & pos.queens()) as usize,
            black_pawns: crate::bitboard::popcount(pos.black_pieces() & pos.pawns()) as usize,
            black_knights: crate::bitboard::popcount(pos.black_pieces() & pos.knights()) as usize,
            black_bishops: crate::bitboard::popcount(pos.black_pieces() & pos.bishops()) as usize,
            black_rooks: crate::bitboard::popcount(pos.black_pieces() & pos.rooks()) as usize,
            black_queens: crate::bitboard::popcount(pos.black_pieces() & pos.queens()) as usize,
        }
    }
}

/// How many of the first `k` squares in `list` sit on file `f`.
pub open spec fn file_count(list: Seq<u64>, f: int, k: int) -> int
    decreases k,
{
    if k <= 0 || k > list.len() {
        0int
    } else {
        file_count(list, f, k - 1) + (if file_of(list[k - 1] as int) == f {
            1int
        } else {
            0int
        })
    }
}

impl Positional {
    /// Count each side's pawns per file.
    pub fn from(pos: &Position) -> (r: Positional)
        ensures
            forall|f: int|
                0 <= f < 8 ==> #[trigger] r.white_pawns_per_file[f] == file_count(
                    crate::bitboard::sq_list(pos.bb[0] & pos.pieces[1]),
                    f,
                    crate::bitboard::sq_list(pos.bb[0] & pos.pieces[1]).len() as int,
                ),
            forall|f: int|
                0 <= f < 8 ==> #[trigger] r.black_pawns_per_file[f] == file_count(
                    crate::bitboard::sq_list(pos.bb[0] & pos.pieces[0]),
                    f,
                    crate::bitboard::sq_list(pos.bb[0] & pos.pieces[0]).len() as int,
                ),
    {
        let white_pawns_per_file = count_files(pos.pawns() & pos.white_pieces());
        let black_pawns_per_file = count_files(pos.pawns() & pos.black_pieces());
        Positional { white_pawns_per_file, black_pawns_per_file }
    }
}

/// Count the squares of `b` on each file.
fn count_files(b: u64) -> (r: [usize; 8])
    ensures
        forall|f: int|
            0 <= f < 8 ==> #[trigger] r[f] == file_count(
                crate::bitboard::sq_list(b),
                f,
                crate::bitboard::sq_list(b).len() as int,
            ),
{
    let squares = crate::bitboard::squares(b);
    let ghost glist = crate::bitboard::sq_list(b);
    proof {
        crate::bitboard::lemma_sq_list_members(b);
        crate::bitboard::lemma_popcnt_le_64(b);
    }
    let mut counts: [usize; 8] = [0, 0, 0, 0, 0, 0, 0, 0];
    let mut k: usize = 0;
    while k < squares.len()
        invariant
            k <= squares@.len(),
            squares@.len() <= 64,
            squares@.map_values(|s: Square| s as u64) == glist,
            glist == crate::bitboard::sq_list(b),
            forall|j: int| 0 <= j < squares@.len() ==> squares@[j] < 64,
            forall|f: int| 0 <= f < 8 ==> #[trigger] counts[f] == file_count(glist, f, k as int),
            forall|f: int| 0 <= f < 8 ==> #[trigger] counts[f] <= k,
        decreases squares@.len() - k,
    {
        let sq = squares[k];
        let f = (sq % 8) as usize;
        counts[f] = counts[f] + 1;
        k += 1;
    }
    counts
}


/// The knight mobility table, demeaned by its average 108.
pub open spec fn knight_mob_seq() -> Seq<i16> {
    seq![-20i16, 40, 80, 120, 130, 140, 150, 160, 170]
}

/// The bishop mobility table, demeaned by its average 110.
pub open spec fn bishop_mob_seq() -> Seq<i16> {
    seq![0i16, 40, 80, 100, 110, 115, 120, 125, 130, 135, 140, 145, 150, 155]
}

/// The rook mobility table, demeaned by its average 105.
pub open spec fn rook_mob_seq() -> Seq<i16> {
    seq![0i16, 40, 80, 90, 100, 105, 110, 115, 120, 125, 130, 135, 140, 145, 150]
}

/// The number of pawn moves one side has: single pushes, double pushes
/// through the cleared third rank, and diagonal captures.
pub open spec fn pawn_mobility_spec(p: Position, white: bool) -> int {
    let us = p.pieces[side_idx(white)];
    let rank3 = if white {
        crate::bitboard::RANK_3
    } else {
        crate::bitboard::RANK_6
    };
    let pawn_stop = crate::bitboard::shift_forward(white, p.bb[0] & us, 1);
    let m0 = pawn_stop & !p.all_pieces;
    let m1 = m0 | (crate::bitboard::shift_forward(white, m0 & rank3, 1) & !p.all_pieces);
    let m2 = m1 | (p.all_pieces & !us & (crate::bitboard::shift_left(pawn_stop, 1)
        | crate::bitboard::shift_right(pawn_stop, 1)));
    popcnt(m2) as int
}

/// The squares enemy pawns attack, which knights avoid counting.
pub open spec fn their_pawn_attacks_spec(p: Position, white: bool) -> u64 {
    let their_pawns = p.bb[0] & !p.pieces[side_idx(white)];
    let stepped = crate::bitboard::shift_forward(!white, their_pawns, 1);
    crate::bitboard::shift_left(stepped, 1) | crate::bitboard::shift_right(stepped, 1)
}

/// The demeaned knight mobility of the knights in `list` from `k` on.
pub open spec fn knight_mob_spec(p: Position, white: bool, list: Seq<u64>, k: int) -> int
    decreases list.len() - k,
{
    if k < 0 || k >= list.len() {
        0int
    } else {
        let t = crate::attacks::knight_att(list[k] as int) & !their_pawn_attacks_spec(p, white);
        (knight_mob_seq()[popcnt(t) as int] - 108) + knight_mob_spec(p, white, list, k + 1)
    }
}

/// The demeaned bishop mobility of the bishops in `list` from `k` on.
pub open spec fn bishop_mob_spec(p: Position, list: Seq<u64>, k: int) -> int
    decreases list.len() - k,
{
    if k < 0 || k >= list.len() {
        0int
    } else {
        let t = crate::attacks::bishop_att(list[k] as int, p.all_pieces);
        (bishop_mob_seq()[popcnt(t) as int] - 110) + bishop_mob_spec(p, list, k + 1)
    }
}

/// The demeaned rook mobility of the rooks in `list` from `k` on.
pub open spec fn rook_mob_spec(p: Position, list: Seq<u64>, k: int) -> int
    decreases list.len() - k,
{
    if k < 0 || k >= list.len() {
        0int
    } else {
        let t = crate::attacks::rook_att(list[k] as int, p.all_pieces);
        (rook_mob_seq()[popcnt(t) as int] - 105) + rook_mob_spec(p, list, k + 1)
    }
}

/// The mobility score of one side: six per pawn move, and table values
/// (demeaned by their averages) per knight, bishop and rook.
pub open spec fn mobility_side_spec(p: Position, white: bool) -> int {
    let us = p.pieces[side_idx(white)];
    6 * pawn_mobility_spec(p, white) + knight_mob_spec(
        p,
        white,
        crate::bitboard::sq_list(p.bb[1] & us),
        0,
    ) + bishop_mob_spec(p, crate::bitboard::sq_list(p.bb[2] & us), 0) + rook_mob_spec(
        p,
        crate::bitboard::sq_list(p.bb[3] & us),
        0,
    )
}

impl Eval {
    /// The mobility score of one side.
    pub fn mobility_for_side(
        &self,
        tables: &crate::attacks::AttackTables,
        pos: &Position,
        white: bool,
    ) -> (r: Score)
        requires
            tables.wf(),
            popcnt(pos.bb[1] & pos.pieces[side_idx(white)]) <= 10,
            popcnt(pos.bb[2] & pos.pieces[side_idx(white)]) <= 10,
            popcnt(pos.bb[3] & pos.pieces[side_idx(white)]) <= 10,
        ensures
            r == mobility_side_spec(*pos, white),
            -3500 <= r <= 2000,
    {
        let us = pos.us(white);
        let rank3 = if white {
            crate::bitboard::RANK_3
        } else {
            crate::bitboard::RANK_6
        };

        let pawn_stop_squares = crate::bitboard::forward(white, pos.pawns() & us, 1);
        let mut pawn_mobility = pawn_stop_squares & !pos.all_pieces;
        pawn_mobility = pawn_mobility | (crate::bitboard::forward(
            white,
            pawn_mobility & rank3,
            1,
        ) & !pos.all_pieces);
        pawn_mobility = pawn_mobility | (pos.all_pieces & !us & (crate::bitboard::left(
            pawn_stop_squares,
            1,
        ) | crate::bitboard::right(pawn_stop_squares, 1)));
        let pawn_count = crate::bitboard::popcount(pawn_mobility);
        proof {
            crate::bitboard::lemma_popcnt_le_64(pawn_mobility);
        }

        let knight_table: [i16; 9] = [-20, 40, 80, 120, 130, 140, 150, 160, 170];
        let bishop_table: [i16; 14] = [0, 40, 80, 100, 110, 115, 120, 125, 130, 135, 140, 145, 150, 155];
        let rook_table: [i16; 15] = [0, 40, 80, 90, 100, 105, 110, 115, 120, 125, 130, 135, 140, 145, 150];
        proof {
            assert(knight_table@ =~= knight_mob_seq());
            assert(bishop_table@ =~= bishop_mob_seq());
            assert(rook_table@ =~= rook_mob_seq());
        }

        let their_pawns = pos.pawns() & !us;
        let stepped = crate::bitboard::forward(!white, their_pawns, 1);
        let their_pawn_attacks = crate::bitboard::left(stepped, 1) | crate::bitboard::right(
            stepped,
            1,
        );

        let mut knight_mobility: i16 = 0;
        let knights = crate::bitboard::squares(pos.knights() & us);
        let ghost gkn = crate::bitboard::sq_list(pos.bb[1] & pos.pieces[side_idx(white)]);
        proof {
            crate::bitboard::lemma_sq_list_members(pos.bb[1] & pos.pieces[side_idx(white)]);
        }
        let mut k: usize = 0;
        while k < knights.len()
            invariant
                k <= knights@.len(),
                knights@.len() <= 10,
                knights@.map_values(|s: Square| s as u64) == gkn,
                forall|j: int| 0 <= j < knights@.len() ==> knights@[j] < 64,
                knight_table@ == knight_mob_seq(),
                their_pawn_attacks == their_pawn_attacks_spec(*pos, white),
                us == pos.pieces[side_idx(white)],
                -128 * k <= knight_mobility <= 62 * k,
                knight_mobility + knight_mob_spec(*pos, white, gkn, k as int) == knight_mob_spec(
                    *pos,
                    white,
                    gkn,
                    0,
                ),
            decreases knights@.len() - k,
        {
            let knight = knights[k];
            let mobility = crate::attacks::knight_attacks(knight) & !their_pawn_attacks;
            proof {
                crate::bitboard::lemma_popcnt_and_le(
                    crate::attacks::knight_att(knight as int),
                    !their_pawn_attacks,
                );
            }
            knight_mobility = knight_mobility + (knight_table[crate::bitboard::popcount(mobility)
                as usize] - 108);
            k += 1;
        }

        let mut bishop_mobility: i16 = 0;
        let bishops = crate::bitboard::squares(pos.bishops() & us);
        let ghost gbi = crate::bitboard::sq_list(pos.bb[2] & pos.pieces[side_idx(white)]);
        proof {
            crate::bitboard::lemma_sq_list_members(pos.bb[2] & pos.pieces[side_idx(white)]);
        }
        let mut b: usize = 0;
        while b < bishops.len()
            invariant
                b <= bishops@.len(),
                bishops@.len() <= 10,
                bishops@.map_values(|s: Square| s as u64) == gbi,
                forall|j: int| 0 <= j < bishops@.len() ==> bishops@[j] < 64,
                bishop_table@ == bishop_mob_seq(),
                tables.wf(),
                -110 * b <= bishop_mobility <= 45 * b,
                bishop_mobility + bishop_mob_spec(*pos, gbi, b as int) == bishop_mob_spec(
                    *pos,
                    gbi,
                    0,
                ),
            decreases bishops@.len() - b,
        {
            let bishop = bishops[b];
            let mobility = crate::attacks::get_bishop_attacks_from(tables, bishop, pos.all_pieces);
            bishop_mobility = bishop_mobility + (bishop_table[crate::bitboard::popcount(mobility)
                as usize] - 110);
            b += 1;
        }

        let mut rook_mobility: i16 = 0;
        let rooks = crate::bitboard::squares(pos.rooks() & us);
        let ghost gro = crate::bitboard::sq_list(pos.bb[3] & pos.pieces[side_idx(white)]);
        proof {
            crate::bitboard::lemma_sq_list_members(pos.bb[3] & pos.pieces[side_idx(white)]);
        }
        let mut q: usize = 0;
        while q < rooks.len()
            invariant
                q <= rooks@.len(),
                rooks@.len() <= 10,
                rooks@.map_values(|s: Square| s as u64) == gro,
                forall|j: int| 0 <= j < rooks@.len() ==> rooks@[j] < 64,
                rook_table@ == rook_mob_seq(),
                tables.wf(),
                -105 * q <= rook_mobility <= 45 * q,
                rook_mobility + rook_mob_spec(*pos, gro, q as int) == rook_mob_spec(*pos, gro, 0),
            decreases rooks@.len() - q,
        {
            let rook = rooks[q];
            let mobility = crate::attacks::get_rook_attacks_from(tables, rook, pos.all_pieces);
            rook_mobility = rook_mobility + (rook_table[crate::bitboard::popcount(mobility)
                as usize] - 105);
            q += 1;
        }

        6 * pawn_count as i16 + knight_mobility + bishop_mobility + rook_mobility
    }
}


/// The summed piece-square values of `piece` for the given side over the
/// squares in `list` from `k` on.
pub open spec fn pst_sum(piece: Piece, white: bool, list: Seq<u64>, k: int) -> int
    decreases list.len() - k,
{
    if k < 0 || k >= list.len() {
        0int
    } else {
        pst_spec(piece, white, list[k] as int) + pst_sum(piece, white, list, k + 1)
    }
}

/// One side's whole piece-square score, summed from scratch over its six
/// piece boards.
pub open spec fn pst_side_spec(p: Position, white: bool) -> int {
    let us = p.pieces[side_idx(white)];
    pst_sum(Piece::Pawn, white, crate::bitboard::sq_list(us & p.bb[0]), 0) + pst_sum(
        Piece::Knight,
        white,
        crate::bitboard::sq_list(us & p.bb[1]),
        0,
    ) + pst_sum(Piece::Bishop, white, crate::bitboard::sq_list(us & p.bb[2]), 0) + pst_sum(
        Piece::Rook,
        white,
        crate::bitboard::sq_list(us & p.bb[3]),
        0,
    ) + pst_sum(Piece::Queen, white, crate::bitboard::sq_list(us & p.bb[4]), 0) + pst_sum(
        Piece::King,
        white,
        crate::bitboard::sq_list(us & p.bb[5]),
        0,
    )
}

/// Sum the piece-square values of `piece` for one side over the squares of
/// board `b`.
fn pst_board_sum(piece: Piece, white: bool, b: u64) -> (r: i16)
    ensures
        r == pst_sum(piece, white, crate::bitboard::sq_list(b), 0),
        -1344 <= r <= 3200,
{
    let table = piece_pst(piece);
    let squares = crate::bitboard::squares(b);
    let ghost glist = crate::bitboard::sq_list(b);
    proof {
        crate::bitboard::lemma_sq_list_members(b);
        crate::bitboard::lemma_popcnt_le_64(b);
    }
    let mut total: i16 = 0;
    let mut k: usize = 0;
    while k < squares.len()
        invariant
            k <= squares@.len(),
            squares@.len() <= 64,
            squares@.map_values(|s: Square| s as u64) == glist,
            forall|j: int| 0 <= j < squares@.len() ==> squares@[j] < 64,
            table@ == pst_seq(piece),
            forall|i: int| 0 <= i < 64 ==> -21 <= #[trigger] table@[i] <= 50,
            -21 * k <= total <= 50 * k,
            total + pst_sum(piece, white, glist, k as int) == pst_sum(piece, white, glist, 0),
        decreases squares@.len() - k,
    {
        let sq = squares[k];
        proof {
            assert(0 <= pst_index(white, sq as int) < 64);
        }
        total = total + pst(&table, white, sq);
        k += 1;
    }
    total
}

/// The side-indexed piece-square sums of a position, from scratch.
pub fn init_pst_score(pos: &Position) -> (r: [Score; 2])
    ensures
        r[1] == pst_side_spec(*pos, true),
        r[0] == pst_side_spec(*pos, false),
        -8064 <= r[0] <= 19200,
        -8064 <= r[1] <= 19200,
{
    let mut white: i16 = 0;
    white = white + pst_board_sum(Piece::Pawn, true, pos.white_pieces() & pos.pawns());
    white = white + pst_board_sum(Piece::Knight, true, pos.white_pieces() & pos.knights());
    white = white + pst_board_sum(Piece::Bishop, true, pos.white_pieces() & pos.bishops());
    white = white + pst_board_sum(Piece::Rook, true, pos.white_pieces() & pos.rooks());
    white = white + pst_board_sum(Piece::Queen, true, pos.white_pieces() & pos.queens());
    white = white + pst_board_sum(Piece::King, true, pos.white_pieces() & pos.kings());

    let mut black: i16 = 0;
    black = black + pst_board_sum(Piece::Pawn, false, pos.black_pieces() & pos.pawns());
    black = black + pst_board_sum(Piece::Knight, false, pos.black_pieces() & pos.knights());
    black = black + pst_board_sum(Piece::Bishop, false, pos.black_pieces() & pos.bishops());
    black = black + pst_board_sum(Piece::Rook, false, pos.black_pieces() & pos.rooks());
    black = black + pst_board_sum(Piece::Queen, false, pos.black_pieces() & pos.queens());
    black = black + pst_board_sum(Piece::King, false, pos.black_pieces() & pos.kings());

    [black, white]
}

/// The material count of a position, from scratch.
pub open spec fn material_spec(p: Position) -> Material {
    Material {
        white_pawns: popcnt(p.pieces[1] & p.bb[0]) as usize,
        white_knights: popcnt(p.pieces[1] & p.bb[1]) as usize,
        white_bishops: popcnt(p.pieces[1] & p.bb[2]) as usize,
        white_rooks: popcnt(p.pieces[1] & p.bb[3]) as usize,
        white_queens: popcnt(p.pieces[1] & p.bb[4]) as usize,
        black_pawns: popcnt(p.pieces[0] & p.bb[0]) as usize,
        black_knights: popcnt(p.pieces[0] & p.bb[1]) as usize,
        black_bishops: popcnt(p.pieces[0] & p.bb[2]) as usize,
        black_rooks: popcnt(p.pieces[0] & p.bb[3]) as usize,
        black_queens: popcnt(p.pieces[0] & p.bb[4]) as usize,
    }
}

impl Eval {
    /// Build the evaluation state of a position from scratch: full material
    /// and piece-square recounts, the per-file pawn counts, and an empty
    /// pawn-structure cache.
    pub fn from(pos: &Position) -> (r: Eval)
        ensures
            r.material == material_spec(*pos),
            r.pst[1] == pst_side_spec(*pos, true),
            r.pst[0] == pst_side_spec(*pos, false),
            forall|f: int|
                0 <= f < 8 ==> #[trigger] r.positional.white_pawns_per_file[f] == file_count(
                    crate::bitboard::sq_list(pos.bb[0] & pos.pieces[1]),
                    f,
                    crate::bitboard::sq_list(pos.bb[0] & pos.pieces[1]).len() as int,
                ),
            forall|f: int|
                0 <= f < 8 ==> #[trigger] r.positional.black_pawns_per_file[f] == file_count(
                    crate::bitboard::sq_list(pos.bb[0] & pos.pieces[0]),
                    f,
                    crate::bitboard::sq_list(pos.bb[0] & pos.pieces[0]).len() as int,
                ),
            r.pawn_table@.len() == PAWN_TABLE_NUM_ENTRIES,
            forall|i: int|
                0 <= i < r.pawn_table@.len() ==> #[trigger] r.pawn_table@[i] == (PawnHashEntry {
                    pawns: 0,
                    color: 0,
                    mg: 0,
                    eg: 0,
                }),
    {
        let mut pawn_table: Vec<PawnHashEntry> = Vec::new();
        let mut i: usize = 0;
        while i < PAWN_TABLE_NUM_ENTRIES
            invariant
                i <= PAWN_TABLE_NUM_ENTRIES,
                pawn_table@.len() == i,
                forall|j: int|
                    0 <= j < pawn_table@.len() ==> #[trigger] pawn_table@[j] == (PawnHashEntry {
                        pawns: 0,
                        color: 0,
                        mg: 0,
                        eg: 0,
                    }),
            decreases PAWN_TABLE_NUM_ENTRIES - i,
        {
            pawn_table.push(PawnHashEntry { pawns: 0, color: 0, mg: 0, eg: 0 });
            i += 1;
        }
        Eval {
            material: Material::from(pos),
            pst: init_pst_score(pos),
            positional: Positional::from(pos),
            pawn_table,
        }
    }
}


/// In a well-formed position each side's pawn board is a function of the
/// pawn board and the white-colour board alone.
pub proof fn lemma_pawn_side_board(p: Position)
    requires
        p.wf(),
    ensures
        p.bb[0] & p.pieces[1] == p.color & p.bb[0],
        p.bb[0] & p.pieces[0] == p.bb[0] ^ (p.color & p.bb[0]),
{
    let bb0 = p.bb[0];
    let all = p.all_pieces;
    assert forall|s: u64| s < 64 implies ((bb0 & p.pieces[1]) & (1u64 << s) != 0) == ((p.color
        & bb0) & (1u64 << s) != 0) by {
        crate::bitboard::lemma_bit_index(bb0, p.pieces[1], s);
        crate::bitboard::lemma_bit_index(all, p.color, s);
        crate::bitboard::lemma_bit_index(p.color, bb0, s);
        crate::bitboard::lemma_bit_index(p.bb[0], p.bb[1], s);
        crate::bitboard::lemma_bit_index(p.bb[0] | p.bb[1], p.bb[2], s);
        crate::bitboard::lemma_bit_index(p.bb[0] | p.bb[1] | p.bb[2], p.bb[3], s);
        crate::bitboard::lemma_bit_index(p.bb[0] | p.bb[1] | p.bb[2] | p.bb[3], p.bb[4], s);
        crate::bitboard::lemma_bit_index(
            p.bb[0] | p.bb[1] | p.bb[2] | p.bb[3] | p.bb[4],
            p.bb[5],
            s,
        );
    }
    crate::bitboard::lemma_bb_ext(bb0 & p.pieces[1], p.color & bb0);
    assert forall|s: u64| s < 64 implies ((bb0 & p.pieces[0]) & (1u64 << s) != 0) == ((bb0 ^ (
    p.color & bb0)) & (1u64 << s) != 0) by {
        crate::bitboard::lemma_bit_index(bb0, p.pieces[0], s);
        crate::bitboard::lemma_bit_index(p.color, p.color, s);
        crate::bitboard::lemma_bit_index(all, !p.color, s);
        crate::bitboard::lemma_bit_index(p.color, bb0, s);
        crate::bitboard::lemma_bit_index(bb0, p.color & bb0, s);
        crate::bitboard::lemma_bit_index(p.bb[0], p.bb[1], s);
        crate::bitboard::lemma_bit_index(p.bb[0] | p.bb[1], p.bb[2], s);
        crate::bitboard::lemma_bit_index(p.bb[0] | p.bb[1] | p.bb[2], p.bb[3], s);
        crate::bitboard::lemma_bit_index(p.bb[0] | p.bb[1] | p.bb[2] | p.bb[3], p.bb[4], s);
        crate::bitboard::lemma_bit_index(
            p.bb[0] | p.bb[1] | p.bb[2] | p.bb[3] | p.bb[4],
            p.bb[5],
            s,
        );
    }
    crate::bitboard::lemma_bb_ext(bb0 & p.pieces[0], bb0 ^ (p.color & bb0));
}

/// The structure terms of one pawn agree between two positions with the same
/// pawn board and the same own-pawn board for the given side.
proof fn lemma_pawn_terms_key(p: Position, q: Position, white: bool, sq: int)
    requires
        p.bb[0] == q.bb[0],
        p.bb[0] & p.pieces[side_idx(white)] == q.bb[0] & q.pieces[side_idx(white)],
        0 <= sq < 64,
    ensures
        pawn_terms(p, white, sq) == pawn_terms(q, white, sq),
{
    let pawns = p.bb[0];
    let us_p = p.pieces[side_idx(white)];
    let us_q = q.pieces[side_idx(white)];
    let corridor = pawn_corridor(white, sq);
    let fb = crate::attacks::file_bb(file_of(sq));
    let file_forward = corridor & fb;
    let lanes = crate::bitboard::shift_left(fb, 1) | crate::bitboard::shift_right(fb, 1);
    assert forall|s: u64| s < 64 implies ((corridor & !us_p & pawns) & (1u64 << s) != 0) == ((
    corridor & !us_q & pawns) & (1u64 << s) != 0) by {
        crate::bitboard::lemma_bit_index(corridor & !us_p, pawns, s);
        crate::bitboard::lemma_bit_index(corridor & !us_q, pawns, s);
        crate::bitboard::lemma_bit_index(corridor, !us_p, s);
        crate::bitboard::lemma_bit_index(corridor, !us_q, s);
        crate::bitboard::lemma_bit_index(us_p, us_p, s);
        crate::bitboard::lemma_bit_index(us_q, us_q, s);
        crate::bitboard::lemma_bit_index(pawns, us_p, s);
        crate::bitboard::lemma_bit_index(pawns, us_q, s);
    }
    crate::bitboard::lemma_bb_ext(corridor & !us_p & pawns, corridor & !us_q & pawns);
    assert forall|s: u64| s < 64 implies ((file_forward & us_p & pawns) & (1u64 << s) != 0) == ((
    file_forward & us_q & pawns) & (1u64 << s) != 0) by {
        crate::bitboard::lemma_bit_index(file_forward & us_p, pawns, s);
        crate::bitboard::lemma_bit_index(file_forward & us_q, pawns, s);
        crate::bitboard::lemma_bit_index(file_forward, us_p, s);
        crate::bitboard::lemma_bit_index(file_forward, us_q, s);
        crate::bitboard::lemma_bit_index(pawns, us_p, s);
        crate::bitboard::lemma_bit_index(pawns, us_q, s);
    }
    crate::bitboard::lemma_bb_ext(file_forward & us_p & pawns, file_forward & us_q & pawns);
    assert forall|s: u64| s < 64 implies ((lanes & pawns & us_p) & (1u64 << s) != 0) == ((lanes
        & pawns & us_q) & (1u64 << s) != 0) by {
        crate::bitboard::lemma_bit_index(lanes & pawns, us_p, s);
        crate::bitboard::lemma_bit_index(lanes & pawns, us_q, s);
        crate::bitboard::lemma_bit_index(lanes, pawns, s);
        crate::bitboard::lemma_bit_index(pawns, us_p, s);
        crate::bitboard::lemma_bit_index(pawns, us_q, s);
    }
    crate::bitboard::lemma_bb_ext(lanes & pawns & us_p, lanes & pawns & us_q);
}

/// The summed structure terms agree between two positions with the same pawn
/// board and the same own-pawn board for the given side.
proof fn lemma_pawn_struct_key(p: Position, q: Position, white: bool, list: Seq<u64>, k: int)
    requires
        p.bb[0] == q.bb[0],
        p.bb[0] & p.pieces[side_idx(white)] == q.bb[0] & q.pieces[side_idx(white)],
        forall|j: int| 0 <= j < list.len() ==> list[j] < 64,
    ensures
        pawn_struct_spec(p, white, list, k) == pawn_struct_spec(q, white, list, k),
    decreases list.len() - k,
{
    if 0 <= k < list.len() {
        lemma_pawn_terms_key(p, q, white, list[k] as int);
        lemma_pawn_struct_key(p, q, white, list, k + 1);
    }
}

/// The pawn-structure scores of both sides agree between two well-formed
/// positions with the same pawn board and the same white-pawn board.
pub proof fn lemma_pawn_scores_key(p: Position, q: Position)
    requires
        p.wf(),
        q.wf(),
        p.bb[0] == q.bb[0],
        p.color & p.bb[0] == q.color & q.bb[0],
    ensures
        p.bb[0] & p.pieces[1] == q.bb[0] & q.pieces[1],
        p.bb[0] & p.pieces[0] == q.bb[0] & q.pieces[0],
        pawn_struct_spec(p, true, crate::bitboard::sq_list(p.bb[0] & p.pieces[1]), 0)
            == pawn_struct_spec(q, true, crate::bitboard::sq_list(q.bb[0] & q.pieces[1]), 0),
        pawn_struct_spec(p, false, crate::bitboard::sq_list(p.bb[0] & p.pieces[0]), 0)
            == pawn_struct_spec(q, false, crate::bitboard::sq_list(q.bb[0] & q.pieces[0]), 0),
{
    lemma_pawn_side_board(p);
    lemma_pawn_side_board(q);
    crate::bitboard::lemma_sq_list_members(p.bb[0] & p.pieces[1]);
    crate::bitboard::lemma_sq_list_members(p.bb[0] & p.pieces[0]);
    lemma_pawn_struct_key(p, q, true, crate::bitboard::sq_list(p.bb[0] & p.pieces[1]), 0);
    lemma_pawn_struct_key(p, q, false, crate::bitboard::sq_list(p.bb[0] & p.pieces[0]), 0);
}

/// What one pawn-cache slot asserts: its scores are the white-minus-black
/// pawn-structure scores of every well-formed position whose pawn board and
/// white-pawn board equal the stored ones.  The zeroed slot satisfies this,
/// since a position without pawns scores zero for both sides.
pub open spec fn pawn_entry_ok(e: PawnHashEntry) -> bool {
    forall|q: Position|
        (#[trigger] q.wf() && q.bb[0] == e.pawns && q.color & q.bb[0] == e.color) ==> {
            let w = pawn_struct_spec(q, true, crate::bitboard::sq_list(q.bb[0] & q.pieces[1]), 0);
            let b = pawn_struct_spec(q, false, crate::bitboard::sq_list(q.bb[0] & q.pieces[0]), 0);
            e.mg == w.0 - b.0 && e.eg == w.1 - b.1
        }
}

/// The whole pawn cache is consistent.
pub open spec fn pawn_cache_ok(t: Seq<PawnHashEntry>) -> bool {
    &&& t.len() == PAWN_TABLE_NUM_ENTRIES
    &&& forall|i: int| 0 <= i < t.len() ==> pawn_entry_ok(#[trigger] t[i])
}

impl Eval {
    /// The pawn-structure score, white minus black, served from the cache
    /// slot of `pawn_hash` when both stored boards match the position and
    /// recomputed, then stored in that slot, otherwise.
    pub fn pawns(&mut self, pos: &Position, pawn_hash: u64) -> (r: (Score, Score))
        requires
            pos.wf(),
            pawn_cache_ok(old(self).pawn_table@),
        ensures
            ({
                let w = pawn_struct_spec(
                    *pos,
                    true,
                    crate::bitboard::sq_list(pos.bb[0] & pos.pieces[1]),
                    0,
                );
                let b = pawn_struct_spec(
                    *pos,
                    false,
                    crate::bitboard::sq_list(pos.bb[0] & pos.pieces[0]),
                    0,
                );
                r.0 == w.0 - b.0 && r.1 == w.1 - b.1
            }),
            final(self).material == old(self).material,
            final(self).pst == old(self).pst,
            final(self).positional == old(self).positional,
            pawn_cache_ok(final(self).pawn_table@),
            forall|i: int|
                0 <= i < PAWN_TABLE_NUM_ENTRIES && i != pawn_hash as int
                    % (PAWN_TABLE_NUM_ENTRIES as int) ==> final(self).pawn_table@[i] == old(
                    self,
                ).pawn_table@[i],
    {
        let pawns = pos.pawns();
        let idx = (pawn_hash % (PAWN_TABLE_NUM_ENTRIES as u64)) as usize;
        let entry = self.pawn_table[idx];
        if entry.pawns == pawns && entry.color == pos.color & pawns {
            proof {
                assert(pawn_entry_ok(entry));
                assert(pos.wf());
            }
            return (entry.mg, entry.eg);
        }

        let (wmg, weg) = self.pawns_for_side(pos, true);
        let (bmg, beg) = self.pawns_for_side(pos, false);
        let new_entry = PawnHashEntry {
            pawns,
            color: pos.color & pawns,
            mg: wmg - bmg,
            eg: weg - beg,
        };
        proof {
            assert forall|q: Position|
                (#[trigger] q.wf() && q.bb[0] == new_entry.pawns && q.color & q.bb[0]
                    == new_entry.color) implies {
                let w = pawn_struct_spec(
                    q,
                    true,
                    crate::bitboard::sq_list(q.bb[0] & q.pieces[1]),
                    0,
                );
                let b = pawn_struct_spec(
                    q,
                    false,
                    crate::bitboard::sq_list(q.bb[0] & q.pieces[0]),
                    0,
                );
                new_entry.mg == w.0 - b.0 && new_entry.eg == w.1 - b.1
            } by {
                lemma_pawn_scores_key(*pos, q);
            }
            assert(pawn_entry_ok(new_entry));
        }
        self.pawn_table.set(idx, new_entry);
        (wmg - bmg, weg - beg)
    }
}


/// The phase interpolation of a midgame and an endgame score, truncating
/// toward zero as machine division does.
pub open spec fn interp_62(mg: int, eg: int, phase: int) -> int {
    let num = mg * phase + eg * (62 - phase);
    if num >= 0 {
        num / 62
    } else {
        -((-num) / 62)
    }
}

/// The whole static evaluation from White's point of view: material,
/// piece-square sums, doubling penalties, mobility, rook files, and the
/// phase-interpolated king-safety and pawn-structure terms.
pub open spec fn eval_white_score_spec(e: Eval, p: Position) -> int {
    let base = e.material.score_spec() + e.pst[1] - e.pst[0] + doubling_spec(e.positional, 0) + (
    mobility_side_spec(p, true) - mobility_side_spec(p, false)) + (rook_files_spec(
        p.bb[0],
        p.bb[0] & p.pieces[1],
        crate::bitboard::sq_list(p.bb[3] & p.pieces[1]),
        0,
    ) - rook_files_spec(
        p.bb[0],
        p.bb[0] & p.pieces[0],
        crate::bitboard::sq_list(p.bb[3] & p.pieces[0]),
        0,
    ));
    let phase = e.material.non_pawn_spec();
    let kw = king_safety_side_spec(e.material, p, true);
    let kb = king_safety_side_spec(e.material, p, false);
    let s1 = base + interp_62(kw.0 - kb.0, kw.1 - kb.1, phase);
    let pw = pawn_struct_spec(p, true, crate::bitboard::sq_list(p.bb[0] & p.pieces[1]), 0);
    let pb = pawn_struct_spec(p, false, crate::bitboard::sq_list(p.bb[0] & p.pieces[0]), 0);
    s1 + interp_62(pw.0 - pb.0, pw.1 - pb.1, phase)
}

/// The static evaluation from the side to move's point of view.
pub open spec fn eval_score_spec(e: Eval, p: Position) -> int {
    if p.white_to_move {
        eval_white_score_spec(e, p)
    } else {
        -eval_white_score_spec(e, p)
    }
}

/// Interpolate a midgame and an endgame score by the phase.
fn interp_scores(mg: i16, eg: i16, phase: i32) -> (r: i32)
    requires
        0 <= phase <= 382,
    ensures
        r == interp_62(mg as int, eg as int, phase as int),
        -23002434 <= r <= 23002434,
{
    proof {
        let m = mg as int;
        let e = eg as int;
        let p = phase as int;
        assert(-12517376 <= m * p <= 12516994 && -10485760 <= e * (62 - p)
            <= 10485760) by (nonlinear_arith)
            requires
                -32768 <= m <= 32767 && -32768 <= e <= 32767 && 0 <= p <= 382,
        ;
    }
    let num: i32 = mg as i32 * phase + eg as i32 * (62 - phase);
    if num >= 0 {
        (num as u32 / 62) as i32
    } else {
        -(((-num) as u32 / 62) as i32)
    }
}

impl Eval {
    /// The static evaluation of a position, in centipawns for the side to
    /// move.  The pawn-structure term goes through the pawn cache.
    pub fn score(
        &mut self,
        tables: &crate::attacks::AttackTables,
        pos: &Position,
        pawn_hash: u64,
    ) -> (r: Score)
        requires
            tables.wf(),
            pos.wf(),
            old(self).material.wf(),
            pawn_cache_ok(old(self).pawn_table@),
            popcnt(pos.bb[1] & pos.pieces[1]) <= 10,
            popcnt(pos.bb[2] & pos.pieces[1]) <= 10,
            popcnt(pos.bb[3] & pos.pieces[1]) <= 10,
            popcnt(pos.bb[1] & pos.pieces[0]) <= 10,
            popcnt(pos.bb[2] & pos.pieces[0]) <= 10,
            popcnt(pos.bb[3] & pos.pieces[0]) <= 10,
            forall|f: int| 0 <= f < 8 ==> #[trigger] old(self).positional.white_pawns_per_file[f] <= 7,
            forall|f: int| 0 <= f < 8 ==> #[trigger] old(self).positional.black_pawns_per_file[f] <= 7,
            -32767 <= eval_white_score_spec(*old(self), *pos) <= 32767,
        ensures
            r == eval_score_spec(*old(self), *pos),
            final(self).material == old(self).material,
            final(self).pst == old(self).pst,
            final(self).positional == old(self).positional,
            pawn_cache_ok(final(self).pawn_table@),
    {
        let mut score: i32 = 0;
        score = score + self.material.score() as i32;
        score = score + (self.pst[1] as i32 - self.pst[0] as i32);
        score = score + self.positional.score() as i32;
        score = score + (self.mobility_for_side(tables, pos, true) as i32
            - self.mobility_for_side(tables, pos, false) as i32);
        score = score + (self.rooks_for_side(pos, true) as i32 - self.rooks_for_side(
            pos,
            false,
        ) as i32);

        let phase = self.phase() as i32;
        let (king_mg, king_eg) = self.king_safety(pos);
        score = score + interp_scores(king_mg, king_eg, phase);
        let (pawns_mg, pawns_eg) = self.pawns(pos, pawn_hash);
        score = score + interp_scores(pawns_mg, pawns_eg, phase);

        let white_score = score as i16;
        if pos.white_to_move {
            white_score
        } else {
            -white_score
        }
    }
}

} // verus!
