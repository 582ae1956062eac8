//! The chess position: board state, irreversible details, and reversible
//! application of moves.
//!
//! `make_move` performs a fixed sequence of bit toggles and `unmake_move`
//! repeats the same toggles, so the two are exact inverses; the contracts
//! pin every field through `make_move_spec` / `unmake_move_spec` and the
//! round trip is proved in `lemma_make_unmake`.
use vstd::prelude::*;
use crate::bitboard::{bit, file_of, has, popcnt, rank_of, Square};
use crate::movegen::{piece_idx, Move, Piece};

verus! {

/// Bit indicating that White may castle kingside.
pub const CASTLE_WHITE_KSIDE: u8 = 0x1;

/// Bit indicating that White may castle queenside.
pub const CASTLE_WHITE_QSIDE: u8 = 0x2;

/// Bit indicating that Black may castle kingside.
pub const CASTLE_BLACK_KSIDE: u8 = 0x4;

/// Bit indicating that Black may castle queenside.
pub const CASTLE_BLACK_QSIDE: u8 = 0x8;

/// The parts of a position that a move does not determine reversibly: the
/// halfmove clock, the en-passant file (255 when none) and the castling mask.
/// The search keeps a stack of these to support unmake.
#[derive(Copy, Clone, PartialEq, Eq, Debug, Structural)]
pub struct IrreversibleDetails {
    /// Plies since the last capture or pawn move (fifty-move-rule counter).
    pub halfmove: u8,
    /// The file of a pawn that just advanced two squares while an enemy pawn
    /// can capture it en passant; 255 otherwise.
    pub en_passant: u8,
    /// The four castling-right bits.
    pub castling: u8,
}

impl Default for IrreversibleDetails {
    fn default() -> (r: IrreversibleDetails)
        ensures
            r.halfmove == 0 && r.en_passant == 0 && r.castling == 0,
    {
        IrreversibleDetails { halfmove: 0, en_passant: 0, castling: 0 }
    }
}

/// A complete chess position.
#[derive(Clone, PartialEq, Eq, Debug)]
pub struct Position {
    /// A set bit marks a square occupied by a White piece.
    pub color: u64,
    /// Occupancy of each piece kind, indexed by `Piece::index()`.
    pub bb: [u64; 6],
    /// All pieces of one side: `[Black, White]`.
    pub pieces: [u64; 2],
    /// Whether it is White's turn.
    pub white_to_move: bool,
    /// Number of the current full move, starting at 1.
    pub fullmove: usize,
    /// The irreversible details of this position.
    pub details: IrreversibleDetails,
    /// All occupied squares.
    pub all_pieces: u64,
    /// The squares of the [Black, White] kings.
    pub king_sq: [Square; 2],
}

/// The union of the per-piece occupancy bitboards.
pub open spec fn bb_union(bb: [u64; 6]) -> u64 {
    bb[0] | bb[1] | bb[2] | bb[3] | bb[4] | bb[5]
}

/// The side-to-move index: 1 for White, 0 for Black.
pub open spec fn side_idx(white: bool) -> int {
    if white {
        1
    } else {
        0
    }
}

impl Position {
    /// The derived fields agree with the piece bitboards: `all_pieces` is
    /// their union and `pieces` splits it by `color`.
    pub open spec fn derived_ok(self) -> bool {
        &&& self.all_pieces == bb_union(self.bb)
        &&& self.pieces[1] == self.all_pieces & self.color
        &&& self.pieces[0] == self.all_pieces & !self.color
    }

    /// No square holds two piece kinds.
    pub open spec fn bb_disjoint(self) -> bool {
        forall|i: int, j: int| 0 <= i < j < 6 ==> self.bb[i] & self.bb[j] == 0
    }

    /// Each side has exactly one king, sitting on its cached square.
    pub open spec fn kings_ok(self) -> bool {
        &&& self.king_sq[0] < 64
        &&& self.king_sq[1] < 64
        &&& self.bb[5] & self.pieces[1] == bit(self.king_sq[1] as int)
        &&& self.bb[5] & self.pieces[0] == bit(self.king_sq[0] as int)
    }

    /// The irreversible details are in range: the en-passant file is a file
    /// or the 255 sentinel, and the castling mask uses only its four bits.
    pub open spec fn details_ok(self) -> bool {
        &&& self.details.en_passant == 255 || self.details.en_passant < 8
        &&& self.details.castling < 16
    }

    /// White-occupancy bits mark only occupied squares.
    pub open spec fn color_ok(self) -> bool {
        self.color & !self.all_pieces == 0
    }

    /// The position invariant: derived fields consistent, piece bitboards
    /// disjoint, one king per side, colour bits only on pieces, and details
    /// in range.
    pub open spec fn wf(self) -> bool {
        &&& self.derived_ok()
        &&& self.bb_disjoint()
        &&& self.kings_ok()
        &&& self.color_ok()
        &&& self.details_ok()
    }

    pub fn pawns(&self) -> (r: u64)
        ensures
            r == self.bb[0],
    {
        self.bb[0]
    }

    pub fn knights(&self) -> (r: u64)
        ensures
            r == self.bb[1],
    {
        self.bb[1]
    }

    pub fn bishops(&self) -> (r: u64)
        ensures
            r == self.bb[2],
    {
        self.bb[2]
    }

    pub fn rooks(&self) -> (r: u64)
        ensures
            r == self.bb[3],
    {
        self.bb[3]
    }

    pub fn queens(&self) -> (r: u64)
        ensures
            r == self.bb[4],
    {
        self.bb[4]
    }

    pub fn kings(&self) -> (r: u64)
        ensures
            r == self.bb[5],
    {
        self.bb[5]
    }

    pub fn king_sq(&self, white: bool) -> (r: Square)
        ensures
            r == self.king_sq[side_idx(white)],
    {
        if white {
            self.king_sq[1]
        } else {
            self.king_sq[0]
        }
    }

    pub fn white_pieces(&self) -> (r: u64)
        ensures
            r == self.pieces[1],
    {
        self.pieces[1]
    }

    pub fn black_pieces(&self) -> (r: u64)
        ensures
            r == self.pieces[0],
    {
        self.pieces[0]
    }

    /// The pieces of the side `white`.
    pub fn us(&self, white: bool) -> (r: u64)
        ensures
            r == self.pieces[side_idx(white)],
    {
        if white {
            self.pieces[1]
        } else {
            self.pieces[0]
        }
    }

    /// The pieces of the side opposing `white`.
    pub fn them(&self, white: bool) -> (r: u64)
        ensures
            r == self.pieces[side_idx(!white)],
    {
        if white {
            self.pieces[0]
        } else {
            self.pieces[1]
        }
    }

    /// Play a null move: the turn passes, en passant lapses, and the
    /// halfmove clock advances.
    pub fn make_nullmove(&mut self)
        requires
            old(self).details.halfmove < 255,
        ensures
            final (self).white_to_move == !old(self).white_to_move,
            final (self).details.en_passant == 255,
            final (self).details.halfmove == old(self).details.halfmove + 1,
            final (self).details.castling == old(self).details.castling,
            final (self).color == old(self).color,
            final (self).bb == old(self).bb,
            final (self).pieces == old(self).pieces,
            final (self).fullmove == old(self).fullmove,
            final (self).all_pieces == old(self).all_pieces,
            final (self).king_sq == old(self).king_sq,
    {
        self.white_to_move = !self.white_to_move;
        self.details.en_passant = 255;
        self.details.halfmove = self.details.halfmove + 1;
    }

    /// Undo a null move given the saved details.
    pub fn unmake_nullmove(&mut self, irreversible_details: IrreversibleDetails)
        ensures
            final (self).white_to_move == !old(self).white_to_move,
            final (self).details == irreversible_details,
            final (self).color == old(self).color,
            final (self).bb == old(self).bb,
            final (self).pieces == old(self).pieces,
            final (self).fullmove == old(self).fullmove,
            final (self).all_pieces == old(self).all_pieces,
            final (self).king_sq == old(self).king_sq,
    {
        self.white_to_move = !self.white_to_move;
        self.details = irreversible_details;
    }

    /// Find the piece kind occupying `at`, if any.
    pub fn find_piece(&self, at: Square) -> (r: Option<Piece>)
        requires
            at < 64,
        ensures
            r == find_piece_spec(*self, at as int),
    {
        if crate::bitboard::contains(self.pawns(), at) {
            Some(Piece::Pawn)
        } else if crate::bitboard::contains(self.knights(), at) {
            Some(Piece::Knight)
        } else if crate::bitboard::contains(self.bishops(), at) {
            Some(Piece::Bishop)
        } else if crate::bitboard::contains(self.rooks(), at) {
            Some(Piece::Rook)
        } else if crate::bitboard::contains(self.queens(), at) {
            Some(Piece::Queen)
        } else if crate::bitboard::contains(self.kings(), at) {
            Some(Piece::King)
        } else {
            None
        }
    }
}

/// The piece kind on square `at`, searched in the fixed order the board
/// bitboards are laid out in.
pub open spec fn find_piece_spec(p: Position, at: int) -> Option<Piece> {
    if has(p.bb[0], at) {
        Some(Piece::Pawn)
    } else if has(p.bb[1], at) {
        Some(Piece::Knight)
    } else if has(p.bb[2], at) {
        Some(Piece::Bishop)
    } else if has(p.bb[3], at) {
        Some(Piece::Rook)
    } else if has(p.bb[4], at) {
        Some(Piece::Queen)
    } else if has(p.bb[5], at) {
        Some(Piece::King)
    } else {
        None
    }
}


/// Square of the pawn removed by an en-passant capture: one rank behind the
/// capture square from the mover's point of view.
pub open spec fn ep_victim(white: bool, to: int) -> int {
    if white {
        to - 8
    } else {
        to + 8
    }
}

/// The move's toggle of piece table `i` at the source square.
pub open spec fn d_from(m: Move, i: int) -> u64 {
    if piece_idx(m.piece) == i {
        bit(m.from as int)
    } else {
        0u64
    }
}

/// The move's toggle of piece table `i` for the captured piece.
pub open spec fn d_capture(white: bool, m: Move, i: int) -> u64 {
    match m.captured {
        Some(c) => if m.en_passant {
            if i == 0 {
                bit(ep_victim(white, m.to as int))
            } else {
                0u64
            }
        } else {
            if piece_idx(c) == i {
                bit(m.to as int)
            } else {
                0u64
            }
        },
        None => 0u64,
    }
}

/// The move's toggle of piece table `i` at the target square: the promoted
/// piece appears there, otherwise the moving piece.
pub open spec fn d_to(m: Move, i: int) -> u64 {
    match m.promoted {
        Some(pp) => if piece_idx(pp) == i {
            bit(m.to as int)
        } else {
            0u64
        },
        None => if piece_idx(m.piece) == i {
            bit(m.to as int)
        } else {
            0u64
        },
    }
}

/// Whether the move has the shape of kingside castling.
pub open spec fn is_ks_castle(m: Move) -> bool {
    m.piece is King && m.to == m.from + 2
}

/// Whether the move has the shape of queenside castling.
pub open spec fn is_qs_castle(m: Move) -> bool {
    m.piece is King && m.from == m.to + 2
}

/// The move's toggle of piece table `i` for the castling rook.
pub open spec fn d_castle(m: Move, i: int) -> u64 {
    if is_ks_castle(m) && i == 3 {
        bit(m.to as int + 1) ^ bit(m.to as int - 1)
    } else if is_qs_castle(m) && i == 3 {
        bit(m.to as int - 2) ^ bit(m.to as int + 1)
    } else {
        0u64
    }
}

/// Piece table `i` after the move: the source, capture, target and castling
/// toggles applied in the order `make_move` performs them.
pub open spec fn bb_after(p: Position, white: bool, m: Move, i: int) -> u64 {
    (((p.bb[i] ^ d_from(m, i)) ^ d_capture(white, m, i)) ^ d_to(m, i)) ^ d_castle(m, i)
}

/// The white-occupancy squares a capture toggles: a Black mover removes a
/// White victim; a White mover's victims are Black and toggle nothing.
pub open spec fn d_color_capture(white: bool, m: Move) -> u64 {
    match m.captured {
        Some(c) => if white {
            0u64
        } else {
            if m.en_passant {
                bit(ep_victim(white, m.to as int))
            } else {
                bit(m.to as int)
            }
        },
        None => 0u64,
    }
}

/// The white-occupancy squares the castling rook toggles (White only).
pub open spec fn d_color_castle(white: bool, m: Move) -> u64 {
    if white {
        d_castle(m, 3)
    } else {
        0u64
    }
}

/// The white-occupancy squares the mover itself toggles (White only).
pub open spec fn d_color_mover(white: bool, m: Move) -> u64 {
    if white {
        bit(m.to as int) ^ bit(m.from as int)
    } else {
        0u64
    }
}

/// The white-occupancy board after the move, toggles in `make_move` order.
pub open spec fn color_after_make(p: Position, white: bool, m: Move) -> u64 {
    ((p.color ^ d_color_capture(white, m)) ^ d_color_castle(white, m)) ^ d_color_mover(white, m)
}

/// The white-occupancy board after the retraction, toggles in `unmake_move`
/// order (mover first, then capture, then castling rook).
pub open spec fn color_after_unmake(p: Position, white: bool, m: Move) -> u64 {
    ((p.color ^ d_color_mover(white, m)) ^ d_color_capture(white, m)) ^ d_color_castle(white, m)
}

/// The en-passant file after the move: the source file if a pawn advanced two
/// squares and an enemy pawn stands beside its destination, else 255.
pub open spec fn new_ep_file(p: Position, m: Move) -> u8 {
    let them = p.pieces[side_idx(!p.white_to_move)];
    let rank2 = if p.white_to_move {
        crate::bitboard::RANK_2
    } else {
        crate::bitboard::RANK_7
    };
    let rank4 = if p.white_to_move {
        crate::bitboard::RANK_4
    } else {
        crate::bitboard::RANK_5
    };
    let pawns = p.bb[0];
    if (pawns & rank2 & bit(m.from as int)) != 0 && (rank4 & bit(m.to as int)) != 0 && ((
    crate::bitboard::shift_left(them & pawns, 1) | crate::bitboard::shift_right(them & pawns, 1))
        & bit(m.to as int)) != 0 {
        (m.from as int % 8) as u8
    } else {
        255
    }
}

/// The halfmove clock after the move: reset by captures and pawn moves.
pub open spec fn halfmove_after(p: Position, m: Move) -> u8 {
    if m.captured is Some || m.piece is Pawn {
        0
    } else {
        (p.details.halfmove + 1) as u8
    }
}

/// The castling rights after the move: a king move clears both bits of its
/// side, and any move from or to a rook's corner clears that corner's bit.
pub open spec fn castling_after(p: Position, m: Move) -> u8 {
    let c0 = p.details.castling;
    let c1 = if m.piece is King {
        if p.white_to_move {
            c0 & !(CASTLE_WHITE_KSIDE | CASTLE_WHITE_QSIDE)
        } else {
            c0 & !(CASTLE_BLACK_KSIDE | CASTLE_BLACK_QSIDE)
        }
    } else {
        c0
    };
    let c2 = if m.from == 0 || m.to == 0 {
        c1 & !CASTLE_WHITE_QSIDE
    } else {
        c1
    };
    let c3 = if m.from == 7 || m.to == 7 {
        c2 & !CASTLE_WHITE_KSIDE
    } else {
        c2
    };
    let c4 = if m.from == 56 || m.to == 56 {
        c3 & !CASTLE_BLACK_QSIDE
    } else {
        c3
    };
    if m.from == 63 || m.to == 63 {
        c4 & !CASTLE_BLACK_KSIDE
    } else {
        c4
    }
}

/// The king-square cache after a king move of the given side.
pub open spec fn king_sq_after(p: Position, m: Move, white: bool, landing: Square) -> [Square; 2] {
    if m.piece is King {
        if white {
            [p.king_sq[0], landing]
        } else {
            [landing, p.king_sq[1]]
        }
    } else {
        p.king_sq
    }
}

/// The position after `m` is played: every field follows from the toggles
/// the move makes, and the derived fields are recomputed.
pub open spec fn make_move_spec(p: Position, m: Move) -> Position {
    let w = p.white_to_move;
    let nbb = [
        bb_after(p, w, m, 0),
        bb_after(p, w, m, 1),
        bb_after(p, w, m, 2),
        bb_after(p, w, m, 3),
        bb_after(p, w, m, 4),
        bb_after(p, w, m, 5),
    ];
    let ncolor = color_after_make(p, w, m);
    let nall = bb_union(nbb);
    Position {
        color: ncolor,
        bb: nbb,
        pieces: [nall & !ncolor, nall & ncolor],
        white_to_move: !w,
        fullmove: if w {
            p.fullmove
        } else {
            (p.fullmove + 1) as usize
        },
        details: IrreversibleDetails {
            halfmove: halfmove_after(p, m),
            en_passant: new_ep_file(p, m),
            castling: castling_after(p, m),
        },
        all_pieces: nall,
        king_sq: king_sq_after(p, m, w, m.to),
    }
}

/// The position after `m` is retracted with the saved details restored: the
/// same toggles are applied again and cancel.
pub open spec fn unmake_move_spec(p: Position, m: Move, d: IrreversibleDetails) -> Position {
    let uw = !p.white_to_move;
    let nbb = [
        bb_after(p, uw, m, 0),
        bb_after(p, uw, m, 1),
        bb_after(p, uw, m, 2),
        bb_after(p, uw, m, 3),
        bb_after(p, uw, m, 4),
        bb_after(p, uw, m, 5),
    ];
    let ncolor = color_after_unmake(p, uw, m);
    let nall = bb_union(nbb);
    Position {
        color: ncolor,
        bb: nbb,
        pieces: [nall & !ncolor, nall & ncolor],
        white_to_move: uw,
        fullmove: if uw {
            p.fullmove
        } else {
            (p.fullmove - 1) as usize
        },
        details: d,
        all_pieces: nall,
        king_sq: king_sq_after(p, m, uw, m.from),
    }
}

/// What `make_move` needs of a move so that no square computation leaves the
/// board: plain bounds that every generated move meets.
pub open spec fn move_applicable(p: Position, m: Move) -> bool {
    &&& m.from < 64
    &&& m.to < 64
    &&& (m.en_passant ==> (p.white_to_move ==> m.to >= 8) && (!p.white_to_move ==> m.to < 56))
    &&& (is_ks_castle(m) ==> m.to <= 62)
    &&& (is_qs_castle(m) ==> m.to >= 2)
    &&& p.details.halfmove < 255
    &&& (!p.white_to_move ==> p.fullmove < usize::MAX)
}

/// What `unmake_move` needs of a move, mirroring `move_applicable` for the
/// side whose move is being retracted.
pub open spec fn unmake_applicable(p: Position, m: Move) -> bool {
    &&& m.from < 64
    &&& m.to < 64
    &&& (m.en_passant ==> (!p.white_to_move ==> m.to >= 8) && (p.white_to_move ==> m.to < 56))
    &&& (is_ks_castle(m) ==> m.to <= 62)
    &&& (is_qs_castle(m) ==> m.to >= 2)
    &&& (p.white_to_move ==> p.fullmove >= 1)
}

impl Position {
    /// The bit toggles of one move on the piece, colour and king-square
    /// fields, in the order `make_move` performs them; the clocks, rights and
    /// derived fields are untouched.
    fn toggle_pieces(&mut self, mov: Move, white: bool)
        requires
            mov.from < 64,
            mov.to < 64,
            (mov.en_passant ==> (white ==> mov.to >= 8) && (!white ==> mov.to < 56)),
            (is_ks_castle(mov) ==> mov.to <= 62),
            (is_qs_castle(mov) ==> mov.to >= 2),
        ensures
            forall|i: int| 0 <= i < 6 ==> final (self).bb[i] == bb_after(*old(self), white, mov, i),
            final (self).color == color_after_make(*old(self), white, mov),
            final (self).king_sq == king_sq_after(*old(self), mov, white, mov.to),
            final (self).details == old(self).details,
            final (self).white_to_move == old(self).white_to_move,
            final (self).fullmove == old(self).fullmove,
            final (self).all_pieces == old(self).all_pieces,
            final (self).pieces == old(self).pieces,
    {
        broadcast use crate::bitboard::lemma_xor_zero_auto;

        let ghost orig = *self;
        let from_bb = crate::bitboard::to_bb(mov.from);
        let to_bb = crate::bitboard::to_bb(mov.to);

        let pi = mov.piece.index();
        self.bb[pi] = self.bb[pi] ^ from_bb;

        match mov.captured {
            Some(piece) => {
                if mov.en_passant {
                    let victim = crate::bitboard::to_bb(
                        if white {
                            mov.to - 8
                        } else {
                            mov.to + 8
                        },
                    );
                    self.bb[0] = self.bb[0] ^ victim;
                    if !white {
                        self.color = self.color ^ victim;
                    }
                } else {
                    let ci = piece.index();
                    self.bb[ci] = self.bb[ci] ^ to_bb;
                    if !white {
                        self.color = self.color ^ to_bb;
                    }
                }
            },
            None => {},
        }
        proof {
            assert(forall|i: int|
                0 <= i < 6 ==> self.bb[i] == (orig.bb[i] ^ d_from(mov, i)) ^ d_capture(
                    white,
                    mov,
                    i,
                ));
            assert(self.color == orig.color ^ d_color_capture(white, mov));
        }

        match mov.promoted {
            Some(piece) => {
                let qi = piece.index();
                self.bb[qi] = self.bb[qi] ^ to_bb;
            },
            None => {
                self.bb[pi] = self.bb[pi] ^ to_bb;
            },
        }

        if mov.piece.index() == 5 {
            if white {
                self.king_sq[1] = mov.to;
            } else {
                self.king_sq[0] = mov.to;
            }
            if mov.to == mov.from + 2 {
                let r1 = crate::bitboard::to_bb(mov.to + 1);
                let r2 = crate::bitboard::to_bb(mov.to - 1);
                let ghost base_bb = self.bb[3];
                let ghost base_c = self.color;
                self.bb[3] = self.bb[3] ^ r1;
                self.bb[3] = self.bb[3] ^ r2;
                if white {
                    self.color = self.color ^ r1;
                    self.color = self.color ^ r2;
                }
                proof {
                    crate::bitboard::lemma_xor_algebra(base_bb, r1, r2);
                    crate::bitboard::lemma_xor_algebra(base_c, r1, r2);
                }
            } else if mov.from == mov.to + 2 {
                let r1 = crate::bitboard::to_bb(mov.to - 2);
                let r2 = crate::bitboard::to_bb(mov.to + 1);
                let ghost base_bb = self.bb[3];
                let ghost base_c = self.color;
                self.bb[3] = self.bb[3] ^ r1;
                self.bb[3] = self.bb[3] ^ r2;
                if white {
                    self.color = self.color ^ r1;
                    self.color = self.color ^ r2;
                }
                proof {
                    crate::bitboard::lemma_xor_algebra(base_bb, r1, r2);
                    crate::bitboard::lemma_xor_algebra(base_c, r1, r2);
                }
            }
        }
        proof {
            assert(forall|i: int| 0 <= i < 6 ==> self.bb[i] == bb_after(orig, white, mov, i));
            assert(self.color == (orig.color ^ d_color_capture(white, mov)) ^ d_color_castle(
                white,
                mov,
            ));
        }

        if white {
            let ghost base_c = self.color;
            self.color = self.color ^ to_bb;
            self.color = self.color ^ from_bb;
            proof {
                crate::bitboard::lemma_xor_algebra(base_c, to_bb, from_bb);
            }
        }
        proof {
            assert(self.color == color_after_make(orig, white, mov));
        }
    }

    /// Apply `mov` to the position. The move must be pseudo-legal; each field
    /// of the result is pinned by `make_move_spec`.
    pub fn make_move(&mut self, mov: Move)
        requires
            move_applicable(*old(self), mov),
        ensures
            *final (self) == make_move_spec(*old(self), mov),
    {
        let ghost orig = *self;
        let white = self.white_to_move;
        let them = self.them(white);
        let rank2: u64 = if white {
            crate::bitboard::RANK_2
        } else {
            crate::bitboard::RANK_7
        };
        let rank4: u64 = if white {
            crate::bitboard::RANK_4
        } else {
            crate::bitboard::RANK_5
        };
        let from_bb = crate::bitboard::to_bb(mov.from);
        let to_bb = crate::bitboard::to_bb(mov.to);
        let their_pawns = them & self.pawns();

        self.details.en_passant = 255;
        if (self.pawns() & rank2 & from_bb) != 0 && (rank4 & to_bb) != 0 && ((crate::bitboard::left(
            their_pawns,
            1,
        ) | crate::bitboard::right(their_pawns, 1)) & to_bb) != 0 {
            self.details.en_passant = crate::bitboard::file(mov.from);
        }
        proof {
            assert(self.details.en_passant == new_ep_file(orig, mov));
        }

        self.details.halfmove = self.details.halfmove + 1;
        if mov.captured.is_some() || mov.piece.index() == 0 {
            self.details.halfmove = 0;
        }
        proof {
            assert(self.details.halfmove == halfmove_after(orig, mov));
        }

        self.toggle_pieces(mov, white);

        if mov.piece.index() == 5 {
            if white {
                self.details.castling = self.details.castling & !(CASTLE_WHITE_KSIDE
                    | CASTLE_WHITE_QSIDE);
            } else {
                self.details.castling = self.details.castling & !(CASTLE_BLACK_KSIDE
                    | CASTLE_BLACK_QSIDE);
            }
        }
        if mov.from == 0 || mov.to == 0 {
            self.details.castling = self.details.castling & !CASTLE_WHITE_QSIDE;
        }
        if mov.from == 7 || mov.to == 7 {
            self.details.castling = self.details.castling & !CASTLE_WHITE_KSIDE;
        }
        if mov.from == 56 || mov.to == 56 {
            self.details.castling = self.details.castling & !CASTLE_BLACK_QSIDE;
        }
        if mov.from == 63 || mov.to == 63 {
            self.details.castling = self.details.castling & !CASTLE_BLACK_KSIDE;
        }
        proof {
            assert(self.details.castling == castling_after(orig, mov));
        }

        if !white {
            self.fullmove = self.fullmove + 1;
        }

        self.white_to_move = !self.white_to_move;
        self.all_pieces = self.pawns() | self.knights() | self.bishops() | self.rooks()
            | self.queens() | self.kings();
        self.pieces[1] = self.all_pieces & self.color;
        self.pieces[0] = self.all_pieces & !self.color;

        proof {
            assert(self.bb =~= make_move_spec(orig, mov).bb);
            assert(self.pieces =~= make_move_spec(orig, mov).pieces);
            assert(self.king_sq =~= make_move_spec(orig, mov).king_sq);
            assert(*self =~= make_move_spec(orig, mov));
        }
    }

    /// Undo a previously made move, restoring the saved irreversible details.
    /// Each field of the result is pinned by `unmake_move_spec`.
    #[verifier::rlimit(100)]
    pub fn unmake_move(&mut self, mov: Move, irreversible_details: IrreversibleDetails)
        requires
            unmake_applicable(*old(self), mov),
        ensures
            *final (self) == unmake_move_spec(*old(self), mov, irreversible_details),
    {
        broadcast use crate::bitboard::lemma_xor_zero_auto;

        let ghost orig = *self;
        self.details = irreversible_details;
        self.white_to_move = !self.white_to_move;
        let unmaking_white_move = self.white_to_move;
        let from_bb = crate::bitboard::to_bb(mov.from);
        let to_bb = crate::bitboard::to_bb(mov.to);

        if unmaking_white_move {
            let ghost base_c = self.color;
            self.color = self.color ^ from_bb;
            self.color = self.color ^ to_bb;
            proof {
                crate::bitboard::lemma_xor_algebra(base_c, from_bb, to_bb);
                crate::bitboard::lemma_xor_algebra(to_bb, from_bb, 0);
            }
        } else {
            self.fullmove = self.fullmove - 1;
        }
        proof {
            assert(self.color == orig.color ^ d_color_mover(unmaking_white_move, mov));
        }

        let pi = mov.piece.index();
        self.bb[pi] = self.bb[pi] ^ from_bb;

        match mov.captured {
            Some(piece) => {
                if mov.en_passant {
                    let victim = crate::bitboard::to_bb(
                        if unmaking_white_move {
                            mov.to - 8
                        } else {
                            mov.to + 8
                        },
                    );
                    self.bb[0] = self.bb[0] ^ victim;
                    if !unmaking_white_move {
                        self.color = self.color ^ victim;
                    }
                } else {
                    let ci = piece.index();
                    self.bb[ci] = self.bb[ci] ^ to_bb;
                    if !unmaking_white_move {
                        self.color = self.color ^ to_bb;
                    }
                }
            },
            None => {},
        }
        proof {
            assert(forall|i: int|
                0 <= i < 6 ==> self.bb[i] == (orig.bb[i] ^ d_from(mov, i)) ^ d_capture(
                    unmaking_white_move,
                    mov,
                    i,
                ));
            assert(self.color == (orig.color ^ d_color_mover(unmaking_white_move, mov))
                ^ d_color_capture(unmaking_white_move, mov));
        }

        match mov.promoted {
            Some(piece) => {
                let qi = piece.index();
                self.bb[qi] = self.bb[qi] ^ to_bb;
            },
            None => {
                self.bb[pi] = self.bb[pi] ^ to_bb;
            },
        }

        if mov.piece.index() == 5 {
            if unmaking_white_move {
                self.king_sq[1] = mov.from;
            } else {
                self.king_sq[0] = mov.from;
            }
            if mov.to == mov.from + 2 {
                let r1 = crate::bitboard::to_bb(mov.to + 1);
                let r2 = crate::bitboard::to_bb(mov.to - 1);
                let ghost base_bb = self.bb[3];
                let ghost base_c = self.color;
                self.bb[3] = self.bb[3] ^ r1;
                self.bb[3] = self.bb[3] ^ r2;
                if unmaking_white_move {
                    self.color = self.color ^ r1;
                    self.color = self.color ^ r2;
                }
                proof {
                    crate::bitboard::lemma_xor_algebra(base_bb, r1, r2);
                    crate::bitboard::lemma_xor_algebra(base_c, r1, r2);
                }
            } else if mov.from == mov.to + 2 {
                let r1 = crate::bitboard::to_bb(mov.to - 2);
                let r2 = crate::bitboard::to_bb(mov.to + 1);
                let ghost base_bb = self.bb[3];
                let ghost base_c = self.color;
                self.bb[3] = self.bb[3] ^ r1;
                self.bb[3] = self.bb[3] ^ r2;
                if unmaking_white_move {
                    self.color = self.color ^ r1;
                    self.color = self.color ^ r2;
                }
                proof {
                    crate::bitboard::lemma_xor_algebra(base_bb, r1, r2);
                    crate::bitboard::lemma_xor_algebra(base_c, r1, r2);
                }
            }
        }
        proof {
            assert(forall|i: int|
                0 <= i < 6 ==> self.bb[i] == bb_after(orig, unmaking_white_move, mov, i));
            assert(self.color == color_after_unmake(orig, unmaking_white_move, mov));
        }

        self.all_pieces = self.pawns() | self.knights() | self.bishops() | self.rooks()
            | self.queens() | self.kings();
        self.pieces[1] = self.all_pieces & self.color;
        self.pieces[0] = self.all_pieces & !self.color;

        proof {
            assert(self.bb =~= unmake_move_spec(orig, mov, irreversible_details).bb);
            assert(self.pieces =~= unmake_move_spec(orig, mov, irreversible_details).pieces);
            assert(self.king_sq =~= unmake_move_spec(orig, mov, irreversible_details).king_sq);
            assert(*self =~= unmake_move_spec(orig, mov, irreversible_details));
        }
    }
}



/// Make/unmake round trip: retracting a move that was just played restores
/// the position bit for bit.  The saved details are the position's own, the
/// derived fields must have been consistent, and on a king move the cached
/// king square must sit on the move's source.
pub proof fn lemma_make_unmake(p: Position, m: Move)
    requires
        move_applicable(p, m),
        p.derived_ok(),
        m.piece is King ==> p.king_sq[side_idx(p.white_to_move)] == m.from,
    ensures
        unmake_move_spec(make_move_spec(p, m), m, p.details) == p,
{
    let w = p.white_to_move;
    let q = make_move_spec(p, m);
    let r = unmake_move_spec(q, m, p.details);
    assert forall|i: int| 0 <= i < 6 implies r.bb[i] == p.bb[i] by {
        crate::bitboard::lemma_xor_roundtrip(
            p.bb[i],
            d_from(m, i),
            d_capture(w, m, i),
            d_to(m, i),
            d_castle(m, i),
        );
    }
    assert(r.bb =~= p.bb);
    crate::bitboard::lemma_xor_roundtrip_rot(
        p.color,
        d_color_capture(w, m),
        d_color_castle(w, m),
        d_color_mover(w, m),
    );
    assert(r.color == p.color);
    assert(r.all_pieces == p.all_pieces);
    assert(r.pieces =~= p.pieces);
    assert(r.king_sq =~= p.king_sq);
    assert(r =~= p);
}


/// Whether the side to move's opponent attacks square `sq`: sliders through
/// the current occupancy, knight and king jumps, and pawn captures.
pub open spec fn attacked_spec(p: Position, sq: int) -> bool {
    let them = p.pieces[side_idx(!p.white_to_move)];
    let their_pawns = p.bb[0] & them;
    ||| (crate::attacks::bishop_att(sq, p.all_pieces) & (p.bb[2] | p.bb[4]) & them) != 0
    ||| (crate::attacks::rook_att(sq, p.all_pieces) & (p.bb[3] | p.bb[4]) & them) != 0
    ||| (crate::attacks::knight_att(sq) & p.bb[1] & them) != 0
    ||| has(
        crate::bitboard::shift_left(crate::bitboard::shift_backward(p.white_to_move, their_pawns, 1), 1),
        sq,
    )
    ||| has(
        crate::bitboard::shift_right(
            crate::bitboard::shift_backward(p.white_to_move, their_pawns, 1),
            1,
        ),
        sq,
    )
    ||| (crate::attacks::king_att(sq) & p.bb[5] & them) != 0
}

impl Position {
    /// Whether the opponent of the side to move attacks `sq`.
    pub fn is_attacked(&self, tables: &crate::attacks::AttackTables, sq: Square) -> (r: bool)
        requires
            tables.wf(),
            sq < 64,
        ensures
            r == attacked_spec(*self, sq as int),
    {
        let them = self.them(self.white_to_move);
        let bishop_attacks = crate::attacks::get_bishop_attacks_from(tables, sq, self.all_pieces)
            & (self.bishops() | self.queens()) & them;
        if bishop_attacks != 0 {
            return true;
        }
        let rook_attacks = crate::attacks::get_rook_attacks_from(tables, sq, self.all_pieces) & (
        self.rooks() | self.queens()) & them;
        if rook_attacks != 0 {
            return true;
        }
        let knight_attacks = crate::attacks::knight_attacks(sq) & self.knights() & them;
        if knight_attacks != 0 {
            return true;
        }
        let their_pawns = self.pawns() & them;
        let pawn_right = crate::bitboard::left(
            crate::bitboard::backward(self.white_to_move, their_pawns, 1),
            1,
        );
        if crate::bitboard::contains(pawn_right, sq) {
            return true;
        }
        let pawn_left = crate::bitboard::right(
            crate::bitboard::backward(self.white_to_move, their_pawns, 1),
            1,
        );
        if crate::bitboard::contains(pawn_left, sq) {
            return true;
        }
        if crate::attacks::king_attacks(sq) & self.kings() & them != 0 {
            return true;
        }
        false
    }

    /// Whether the side to move is in check.
    pub fn in_check(&self, tables: &crate::attacks::AttackTables) -> (r: bool)
        requires
            tables.wf(),
            self.king_sq[side_idx(self.white_to_move)] < 64,
        ensures
            r == attacked_spec(*self, self.king_sq[side_idx(self.white_to_move)] as int),
    {
        let k = self.king_sq(self.white_to_move);
        self.is_attacked(tables, k)
    }
}

/// Whether a pseudo-legal move is legal: the board is updated virtually and
/// the mover's king must not be attacked; castling additionally requires the
/// start square and the crossed square to be safe.
pub open spec fn move_is_legal_spec(p: Position, m: Move) -> bool {
    let w = p.white_to_move;
    let king0 = p.king_sq[side_idx(w)] as int;
    let them0 = p.pieces[side_idx(!w)] & p.all_pieces;
    let fb = bit(m.from as int);
    let tb = bit(m.to as int);
    if m.piece is King && has(crate::bitboard::shift_left(fb, 2), m.to as int) {
        if attacked_spec(p, m.from as int) || attacked_spec(p, m.from as int - 1) {
            false
        } else {
            let all = (((p.all_pieces ^ fb) ^ tb) ^ bit(m.to as int - 2)) ^ bit(m.to as int + 1);
            legal_scan(p, m.to as int, all, them0)
        }
    } else if m.piece is King && has(crate::bitboard::shift_right(fb, 2), m.to as int) {
        if attacked_spec(p, m.from as int) || attacked_spec(p, m.from as int + 1) {
            false
        } else {
            let all = (((p.all_pieces ^ fb) ^ tb) ^ bit(m.to as int + 1)) ^ bit(m.to as int - 1);
            legal_scan(p, m.to as int, all, them0)
        }
    } else if m.piece is King {
        if m.captured is None {
            legal_scan(p, m.to as int, (p.all_pieces ^ fb) ^ tb, them0)
        } else {
            legal_scan(p, m.to as int, p.all_pieces ^ fb, them0 ^ tb)
        }
    } else if m.en_passant {
        let vb = bit(ep_victim(w, m.to as int));
        legal_scan(p, king0, ((p.all_pieces ^ fb) ^ tb) ^ vb, them0 ^ vb)
    } else if m.captured is Some {
        legal_scan(p, king0, p.all_pieces ^ fb, them0 ^ tb)
    } else {
        legal_scan(p, king0, (p.all_pieces ^ fb) ^ tb, them0)
    }
}

/// The post-move safety scan of `move_is_legal`: no enemy knight, king,
/// slider or pawn attacks the mover's king through the updated occupancy.
pub open spec fn legal_scan(p: Position, king: int, all: u64, them: u64) -> bool {
    let their_pawns = p.bb[0] & them;
    let pawn_hits = crate::bitboard::shift_backward(
        p.white_to_move,
        crate::bitboard::shift_left(their_pawns, 1) | crate::bitboard::shift_right(their_pawns, 1),
        1,
    );
    if (crate::attacks::knight_att(king) & them & p.bb[1]) != 0 {
        false
    } else if (crate::attacks::king_att(king) & them & p.bb[5]) != 0 {
        false
    } else if (crate::attacks::bishop_att(king, all) & them & (p.bb[4] | p.bb[2])) != 0 {
        false
    } else if (crate::attacks::rook_att(king, all) & them & (p.bb[4] | p.bb[3])) != 0 {
        false
    } else if has(pawn_hits, king) {
        false
    } else {
        true
    }
}

impl Position {
    /// The executable safety scan behind `move_is_legal`.
    fn legal_scan_exec(
        &self,
        tables: &crate::attacks::AttackTables,
        king: Square,
        all: u64,
        them: u64,
    ) -> (r: bool)
        requires
            tables.wf(),
            king < 64,
        ensures
            r == legal_scan(*self, king as int, all, them),
    {
        if crate::attacks::knight_attacks(king) & them & self.knights() != 0 {
            return false;
        }
        if crate::attacks::king_attacks(king) & them & self.kings() != 0 {
            return false;
        }
        if crate::attacks::get_bishop_attacks_from(tables, king, all) & them & (self.queens()
            | self.bishops()) != 0 {
            return false;
        }
        if crate::attacks::get_rook_attacks_from(tables, king, all) & them & (self.queens()
            | self.rooks()) != 0 {
            return false;
        }
        let their_pawns = self.pawns() & them;
        let pawn_hits = crate::bitboard::backward(
            self.white_to_move,
            crate::bitboard::left(their_pawns, 1) | crate::bitboard::right(their_pawns, 1),
            1,
        );
        if crate::bitboard::contains(pawn_hits, king) {
            return false;
        }
        true
    }

    /// Whether the pseudo-legal move `mov` leaves the mover's own king safe;
    /// for castling the king's start square and crossed square are also
    /// checked.
    pub fn move_is_legal(&self, tables: &crate::attacks::AttackTables, mov: Move) -> (r: bool)
        requires
            tables.wf(),
            mov.from < 64,
            mov.to < 64,
            self.king_sq[side_idx(self.white_to_move)] < 64,
            (mov.en_passant ==> (self.white_to_move ==> mov.to >= 8) && (!self.white_to_move
                ==> mov.to < 56)),
            (is_ks_castle(mov) ==> mov.to <= 62),
            (is_qs_castle(mov) ==> mov.to >= 2),
        ensures
            r == move_is_legal_spec(*self, mov),
    {
        let w = self.white_to_move;
        let mut all_pieces = self.all_pieces;
        let mut king = self.king_sq(w);
        let mut them = self.them(w) & all_pieces;
        let from_bb = crate::bitboard::to_bb(mov.from);
        let to_bb = crate::bitboard::to_bb(mov.to);

        if mov.piece.index() == 5 {
            king = mov.to;
            if crate::bitboard::contains(crate::bitboard::left(from_bb, 2), mov.to) {
                proof {
                    let f = mov.from;
                    let t = mov.to;
                    assert(f == t + 2 && t % 8 <= 5) by (bit_vector)
                        requires
                            f < 64 && t < 64 && ((1u64 << f) & !crate::bitboard::low_files(2))
                                >> 2u64 & (1u64 << t) != 0,
                    ;
                }
                if self.is_attacked(tables, mov.from) || self.is_attacked(tables, mov.from - 1) {
                    return false;
                }
                all_pieces = all_pieces ^ from_bb;
                all_pieces = all_pieces ^ to_bb;
                all_pieces = all_pieces ^ crate::bitboard::to_bb(mov.to - 2);
                all_pieces = all_pieces ^ crate::bitboard::to_bb(mov.to + 1);
            } else if crate::bitboard::contains(crate::bitboard::right(from_bb, 2), mov.to) {
                proof {
                    let f = mov.from;
                    let t = mov.to;
                    assert(t == f + 2 && t % 8 >= 2 && t >= 2) by (bit_vector)
                        requires
                            f < 64 && t < 64 && ((1u64 << f) & crate::bitboard::low_files(6))
                                << 2u64 & (1u64 << t) != 0,
                    ;
                }
                if self.is_attacked(tables, mov.from) || self.is_attacked(tables, mov.from + 1) {
                    return false;
                }
                all_pieces = all_pieces ^ from_bb;
                all_pieces = all_pieces ^ to_bb;
                all_pieces = all_pieces ^ crate::bitboard::to_bb(mov.to + 1);
                all_pieces = all_pieces ^ crate::bitboard::to_bb(mov.to - 1);
            } else {
                all_pieces = all_pieces ^ from_bb;
                if mov.captured.is_none() {
                    all_pieces = all_pieces ^ to_bb;
                } else {
                    them = them ^ to_bb;
                }
            }
        } else if mov.en_passant {
            let victim = crate::bitboard::to_bb(
                if w {
                    mov.to - 8
                } else {
                    mov.to + 8
                },
            );
            all_pieces = all_pieces ^ from_bb;
            all_pieces = all_pieces ^ to_bb;
            all_pieces = all_pieces ^ victim;
            them = them ^ victim;
        } else if mov.captured.is_some() {
            all_pieces = all_pieces ^ from_bb;
            them = them ^ to_bb;
        } else {
            all_pieces = all_pieces ^ from_bb;
            all_pieces = all_pieces ^ to_bb;
        }

        self.legal_scan_exec(tables, king, all_pieces, them)
    }
}


/// The virtual board `move_will_check` scans: per-side attacker sets and the
/// occupancy after the move, each updated by the move's toggles.
pub open spec fn will_check_boards(p: Position, m: Move) -> (u64, u64, u64, u64, u64) {
    let w = p.white_to_move;
    let us = p.pieces[side_idx(w)];
    let fb = bit(m.from as int);
    let tb = bit(m.to as int);
    let all0 = (p.all_pieces ^ fb) | tb;
    let pawns0 = p.bb[0] & us;
    let knights0 = p.bb[1] & us;
    let bishops0 = (p.bb[2] | p.bb[4]) & us;
    let rooks0 = (p.bb[3] | p.bb[4]) & us;
    match m.piece {
        Piece::Pawn => {
            let pawns1 = (pawns0 ^ fb) | tb;
            let all1 = if m.en_passant {
                all0 ^ bit(ep_victim(w, m.to as int))
            } else {
                all0
            };
            match m.promoted {
                Some(pp) => {
                    let pawns2 = pawns1 ^ tb;
                    match pp {
                        Piece::Knight => (pawns2, knights0 | tb, bishops0, rooks0, all1),
                        Piece::Bishop => (pawns2, knights0, bishops0 | tb, rooks0, all1),
                        Piece::Rook => (pawns2, knights0, bishops0, rooks0 | tb, all1),
                        Piece::Queen => (pawns2, knights0, bishops0 | tb, rooks0 | tb, all1),
                        _ => (pawns2, knights0, bishops0, rooks0, all1),
                    }
                },
                None => (pawns1, knights0, bishops0, rooks0, all1),
            }
        },
        Piece::Knight => (pawns0, (knights0 ^ fb) | tb, bishops0, rooks0, all0),
        Piece::Bishop => (pawns0, knights0, (bishops0 ^ fb) | tb, rooks0, all0),
        Piece::Rook => (pawns0, knights0, bishops0, (rooks0 ^ fb) | tb, all0),
        Piece::Queen => (pawns0, knights0, (bishops0 ^ fb) | tb, (rooks0 ^ fb) | tb, all0),
        Piece::King => {
            if m.to == m.from + 2 {
                let r1 = bit(m.to as int + 1);
                let r2 = bit(m.to as int - 1);
                (pawns0, knights0, bishops0, (rooks0 ^ r1) | r2, (all0 ^ r1) | r2)
            } else if m.from == m.to + 2 {
                let r1 = bit(m.to as int - 2);
                let r2 = bit(m.to as int + 1);
                (pawns0, knights0, bishops0, (rooks0 ^ r1) | r2, (all0 ^ r1) | r2)
            } else {
                (pawns0, knights0, bishops0, rooks0, all0)
            }
        },
    }
}

/// Whether playing `m` would put the opponent's king in check, decided on the
/// virtual board without touching the position.
pub open spec fn move_will_check_spec(p: Position, m: Move) -> bool {
    let w = p.white_to_move;
    let boards = will_check_boards(p, m);
    let their_king = p.king_sq[side_idx(!w)] as int;
    ||| (crate::attacks::knight_att(their_king) & boards.1) != 0
    ||| (crate::attacks::bishop_att(their_king, boards.4) & boards.2) != 0
    ||| (crate::attacks::rook_att(their_king, boards.4) & boards.3) != 0
    ||| has(
        crate::bitboard::shift_forward(
            w,
            crate::bitboard::shift_left(boards.0, 1) | crate::bitboard::shift_right(boards.0, 1),
            1,
        ),
        their_king,
    )
}

impl Position {
    /// Whether playing `mov` would give check, computed on a virtual board
    /// so the position itself is untouched.
    pub fn move_will_check(&self, tables: &crate::attacks::AttackTables, mov: Move) -> (r: bool)
        requires
            tables.wf(),
            mov.from < 64,
            mov.to < 64,
            self.king_sq[side_idx(!self.white_to_move)] < 64,
            (mov.en_passant ==> (self.white_to_move ==> mov.to >= 8) && (!self.white_to_move
                ==> mov.to < 56)),
            (mov.piece is King && mov.to == mov.from + 2 ==> mov.to <= 62),
            (mov.piece is King && mov.from == mov.to + 2 ==> mov.to >= 2),
        ensures
            r == move_will_check_spec(*self, mov),
    {
        let w = self.white_to_move;
        let us = self.us(w);
        let from_bb = crate::bitboard::to_bb(mov.from);
        let to_bb = crate::bitboard::to_bb(mov.to);
        let mut all_pieces = self.all_pieces;
        let mut pawns = self.pawns() & us;
        let mut knights = self.knights() & us;
        let mut bishops = (self.bishops() | self.queens()) & us;
        let mut rooks = (self.rooks() | self.queens()) & us;

        all_pieces = all_pieces ^ from_bb;
        all_pieces = all_pieces | to_bb;

        match mov.piece {
            Piece::Pawn => {
                pawns = pawns ^ from_bb;
                pawns = pawns | to_bb;
                if mov.en_passant {
                    let victim = crate::bitboard::to_bb(
                        if w {
                            mov.to - 8
                        } else {
                            mov.to + 8
                        },
                    );
                    all_pieces = all_pieces ^ victim;
                }
                match mov.promoted {
                    Some(piece) => {
                        pawns = pawns ^ to_bb;
                        match piece {
                            Piece::Knight => {
                                knights = knights | to_bb;
                            },
                            Piece::Bishop => {
                                bishops = bishops | to_bb;
                            },
                            Piece::Rook => {
                                rooks = rooks | to_bb;
                            },
                            Piece::Queen => {
                                bishops = bishops | to_bb;
                                rooks = rooks | to_bb;
                            },
                            _ => {},
                        }
                    },
                    None => {},
                }
            },
            Piece::Knight => {
                knights = knights ^ from_bb;
                knights = knights | to_bb;
            },
            Piece::Bishop => {
                bishops = bishops ^ from_bb;
                bishops = bishops | to_bb;
            },
            Piece::Rook => {
                rooks = rooks ^ from_bb;
                rooks = rooks | to_bb;
            },
            Piece::Queen => {
                bishops = bishops ^ from_bb;
                bishops = bishops | to_bb;
                rooks = rooks ^ from_bb;
                rooks = rooks | to_bb;
            },
            Piece::King => {
                if mov.to == mov.from + 2 {
                    let r1 = crate::bitboard::to_bb(mov.to + 1);
                    let r2 = crate::bitboard::to_bb(mov.to - 1);
                    rooks = rooks ^ r1;
                    rooks = rooks | r2;
                    all_pieces = all_pieces ^ r1;
                    all_pieces = all_pieces | r2;
                } else if mov.from == mov.to + 2 {
                    let r1 = crate::bitboard::to_bb(mov.to - 2);
                    let r2 = crate::bitboard::to_bb(mov.to + 1);
                    rooks = rooks ^ r1;
                    rooks = rooks | r2;
                    all_pieces = all_pieces ^ r1;
                    all_pieces = all_pieces | r2;
                }
            },
        }

        let their_king = self.king_sq(!w);
        if crate::attacks::knight_attacks(their_king) & knights != 0 {
            return true;
        }
        if crate::attacks::get_bishop_attacks_from(tables, their_king, all_pieces) & bishops != 0 {
            return true;
        }
        if crate::attacks::get_rook_attacks_from(tables, their_king, all_pieces) & rooks != 0 {
            return true;
        }
        let pawn_hits = crate::bitboard::forward(
            w,
            crate::bitboard::left(pawns, 1) | crate::bitboard::right(pawns, 1),
            1,
        );
        if crate::bitboard::contains(pawn_hits, their_king) {
            return true;
        }
        false
    }
}

/// The pawn part of pseudo-legality: a single push, a double push from the
/// start rank through an empty intermediate square, diagonal captures,
/// promotion exactly on the last rank, and an en-passant capture beside an
/// enemy pawn on the en-passant file.
pub open spec fn pawn_pseudo_legal(p: Position, m: Move) -> bool {
    let w = p.white_to_move;
    let us = p.pieces[side_idx(w)];
    if m.en_passant {
        if p.details.en_passant == 255 {
            false
        } else {
            let ep_rank: int = if w {
                4
            } else {
                3
            };
            let ep_sq = ep_rank * 8 + p.details.en_passant;
            let their_pawns = p.bb[0] & !us;
            m.to == ep_sq + (if w {
                8int
            } else {
                -8
            }) && has(their_pawns, ep_sq)
        }
    } else if (w && m.from >= 56) || (!w && m.from < 8) {
        false
    } else {
        let step: int = if w {
            m.from + 8
        } else {
            m.from - 8
        };
        let pt0 = bit(step);
        let pt1 = if m.captured is Some {
            ((pt0 | crate::bitboard::shift_left(pt0, 1)) | crate::bitboard::shift_right(pt0, 1))
                ^ pt0
        } else {
            pt0
        };
        let rank3 = if w {
            crate::bitboard::RANK_3
        } else {
            crate::bitboard::RANK_6
        };
        let pt2 = if m.captured is None {
            pt1 | crate::bitboard::shift_forward(w, pt0 & !p.all_pieces & rank3, 1)
        } else {
            pt1
        };
        if !(has(pt2, m.to as int)) {
            false
        } else if has(crate::bitboard::RANK_1 | crate::bitboard::RANK_8, m.to as int) {
            m.promoted is Some
        } else {
            true
        }
    }
}

/// The king part of pseudo-legality: one step along the king attack set, or
/// castling with the right intact, the passage empty and the rook in place.
pub open spec fn king_pseudo_legal(p: Position, m: Move) -> bool {
    let w = p.white_to_move;
    let us = p.pieces[side_idx(w)];
    if m.to == m.from + 2 {
        if w {
            (p.details.castling & CASTLE_WHITE_KSIDE) > 0 && (p.all_pieces
                & 0x0000_0000_0000_0060) == 0 && has(p.bb[3] & us, 7)
        } else {
            (p.details.castling & CASTLE_BLACK_KSIDE) > 0 && (p.all_pieces
                & 0x6000_0000_0000_0000) == 0 && has(p.bb[3] & us, 63)
        }
    } else if m.from == m.to + 2 {
        if w {
            (p.details.castling & CASTLE_WHITE_QSIDE) > 0 && (p.all_pieces
                & 0x0000_0000_0000_000E) == 0 && has(p.bb[3] & us, 0)
        } else {
            (p.details.castling & CASTLE_BLACK_QSIDE) > 0 && (p.all_pieces
                & 0x0E00_0000_0000_0000) == 0 && has(p.bb[3] & us, 56)
        }
    } else {
        has(crate::attacks::king_att(m.from as int), m.to as int)
    }
}

/// Whether `m` obeys the movement rules and colour constraints of its piece
/// in `p`, ignoring whether the king is left in check.
pub open spec fn move_is_pseudo_legal_spec(p: Position, m: Move) -> bool {
    let w = p.white_to_move;
    let us = p.pieces[side_idx(w)];
    if !(has(us, m.from as int)) {
        false
    } else if has(us, m.to as int) {
        false
    } else if find_piece_spec(p, m.from as int) != Some(m.piece) {
        false
    } else if find_piece_spec(p, m.to as int) != m.captured && !m.en_passant {
        false
    } else if !(m.piece is Pawn) && (m.en_passant || m.promoted is Some) {
        false
    } else {
        match m.piece {
            Piece::Pawn => pawn_pseudo_legal(p, m),
            Piece::Knight => has(crate::attacks::knight_att(m.from as int), m.to as int),
            Piece::Bishop => has(crate::attacks::bishop_att(m.from as int, p.all_pieces), m.to as int),
            Piece::Rook => has(crate::attacks::rook_att(m.from as int, p.all_pieces), m.to as int),
            Piece::Queen => has(
                crate::attacks::bishop_att(m.from as int, p.all_pieces) | crate::attacks::rook_att(
                    m.from as int,
                    p.all_pieces,
                ),
                m.to as int,
            ),
            Piece::King => king_pseudo_legal(p, m),
        }
    }
}

impl Position {
    /// Whether `mov` obeys its piece's movement rules and colour constraints
    /// in this position (the king may still be left in check).
    pub fn move_is_pseudo_legal(&self, tables: &crate::attacks::AttackTables, mov: Move) -> (r:
        bool)
        requires
            tables.wf(),
            mov.from < 64,
            mov.to < 64,
            self.details.en_passant == 255 || self.details.en_passant < 8,
        ensures
            r == move_is_pseudo_legal_spec(*self, mov),
    {
        let w = self.white_to_move;
        let us = self.us(w);

        if !crate::bitboard::contains(us, mov.from) {
            return false;
        }
        if crate::bitboard::contains(us, mov.to) {
            return false;
        }
        let at_from = self.find_piece(mov.from);
        let from_ok = match at_from {
            Some(pc) => pc.index() == mov.piece.index(),
            None => false,
        };
        if !from_ok {
            return false;
        }
        let at_to = self.find_piece(mov.to);
        let to_ok = match (at_to, mov.captured) {
            (Some(a), Some(b)) => a.index() == b.index(),
            (None, None) => true,
            _ => false,
        };
        if !to_ok && !mov.en_passant {
            return false;
        }
        if mov.piece.index() != 0 && (mov.en_passant || mov.promoted.is_some()) {
            return false;
        }

        match mov.piece {
            Piece::Pawn => {
                if mov.en_passant {
                    if self.details.en_passant == 255 {
                        return false;
                    }
                    let ep_capturers_rank: u8 = if w {
                        4
                    } else {
                        3
                    };
                    let ep_square = crate::bitboard::file_rank(
                        self.details.en_passant,
                        ep_capturers_rank,
                    );
                    let their_pawns = self.pawns() & !us;
                    let target: u8 = if w {
                        ep_square + 8
                    } else {
                        ep_square - 8
                    };
                    return mov.to == target && crate::bitboard::contains(their_pawns, ep_square);
                }
                if w && mov.from >= 56 || !w && mov.from < 8 {
                    return false;
                }
                let step: u8 = if w {
                    mov.from + 8
                } else {
                    mov.from - 8
                };
                let mut possible_targets = crate::bitboard::to_bb(step);
                if mov.captured.is_some() {
                    possible_targets = possible_targets | crate::bitboard::left(
                        possible_targets,
                        1,
                    );
                    possible_targets = possible_targets | crate::bitboard::right(
                        possible_targets,
                        1,
                    );
                    possible_targets = possible_targets ^ crate::bitboard::to_bb(step);
                    proof {
                        let pt0 = bit(step as int);
                        assert((pt0 | crate::bitboard::shift_left(pt0, 1)
                            | crate::bitboard::shift_right(pt0 | crate::bitboard::shift_left(
                            pt0,
                            1,
                        ), 1)) ^ pt0 == ((pt0 | crate::bitboard::shift_left(pt0, 1))
                            | crate::bitboard::shift_right(pt0, 1)) ^ pt0) by (bit_vector);
                    }
                } else {
                    let rank3 = if w {
                        crate::bitboard::RANK_3
                    } else {
                        crate::bitboard::RANK_6
                    };
                    possible_targets = possible_targets | crate::bitboard::forward(
                        w,
                        crate::bitboard::to_bb(step) & !self.all_pieces & rank3,
                        1,
                    );
                }
                if !crate::bitboard::contains(possible_targets, mov.to) {
                    return false;
                }
                if crate::bitboard::contains(
                    crate::bitboard::RANK_1 | crate::bitboard::RANK_8,
                    mov.to,
                ) {
                    return mov.promoted.is_some();
                }
                true
            },
            Piece::Knight => crate::bitboard::contains(crate::attacks::knight_attacks(mov.from), mov.to),
            Piece::Bishop => crate::bitboard::contains(
                crate::attacks::get_bishop_attacks_from(tables, mov.from, self.all_pieces),
                mov.to,
            ),
            Piece::Rook => crate::bitboard::contains(
                crate::attacks::get_rook_attacks_from(tables, mov.from, self.all_pieces),
                mov.to,
            ),
            Piece::Queen => crate::bitboard::contains(
                crate::attacks::get_bishop_attacks_from(tables, mov.from, self.all_pieces)
                    | crate::attacks::get_rook_attacks_from(tables, mov.from, self.all_pieces),
                mov.to,
            ),
            Piece::King => {
                if mov.to == mov.from + 2 {
                    if w {
                        return (self.details.castling & CASTLE_WHITE_KSIDE) > 0 && (
                        self.all_pieces & 0x0000_0000_0000_0060) == 0 && crate::bitboard::contains(
                            self.rooks() & us,
                            7,
                        );
                    } else {
                        return (self.details.castling & CASTLE_BLACK_KSIDE) > 0 && (
                        self.all_pieces & 0x6000_0000_0000_0000) == 0
                            && crate::bitboard::contains(self.rooks() & us, 63);
                    }
                }
                if mov.from >= 2 && mov.from - 2 == mov.to {
                    if w {
                        return (self.details.castling & CASTLE_WHITE_QSIDE) > 0 && (
                        self.all_pieces & 0x0000_0000_0000_000E) == 0 && crate::bitboard::contains(
                            self.rooks() & us,
                            0,
                        );
                    } else {
                        return (self.details.castling & CASTLE_BLACK_QSIDE) > 0 && (
                        self.all_pieces & 0x0E00_0000_0000_0000) == 0
                            && crate::bitboard::contains(self.rooks() & us, 56);
                    }
                }
                crate::bitboard::contains(crate::attacks::king_attacks(mov.from), mov.to)
            },
        }
    }
}


/// The cheapest capturers of `sq` among `white`'s pieces inside `allowed`:
/// the first non-empty attacker set in the order pawn, knight, bishop, rook,
/// queen, king; sliders look through `allowed` so x-ray attackers appear as
/// blockers vanish.
pub open spec fn cheapest_spec(p: Position, sq: int, allowed: u64, white: bool) -> (Piece, u64) {
    let us = p.pieces[side_idx(white)] & allowed;
    let back = crate::bitboard::shift_backward(white, bit(sq), 1);
    let pawn_caps = (p.bb[0] & us) & (crate::bitboard::shift_left(back, 1)
        | crate::bitboard::shift_right(back, 1));
    if pawn_caps != 0 {
        (Piece::Pawn, pawn_caps)
    } else {
        let kn = (p.bb[1] & us) & crate::attacks::knight_att(sq);
        if kn != 0 {
            (Piece::Knight, kn)
        } else {
            let b_att = us & crate::attacks::bishop_att(sq, allowed);
            let bi = p.bb[2] & b_att;
            if bi != 0 {
                (Piece::Bishop, bi)
            } else {
                let r_att = us & crate::attacks::rook_att(sq, allowed);
                let ro = p.bb[3] & r_att;
                if ro != 0 {
                    (Piece::Rook, ro)
                } else {
                    let qu = (p.bb[4] & us) & (b_att | r_att);
                    if qu != 0 {
                        (Piece::Queen, qu)
                    } else {
                        (Piece::King, (p.bb[5] & us) & crate::attacks::king_att(sq))
                    }
                }
            }
        }
    }
}

/// A value built by intersecting with the side's pieces inside `allowed`
/// stays inside `allowed`.
proof fn lemma_subset_shapes(v: u64, a: u64, pp: u64, al: u64, c: u64)
    by (bit_vector)
    requires
        v == (a & (pp & al)) & c || v == a & ((pp & al) & c),
    ensures
        v & al == v,
{
}

/// The capturers the exchange picks always stand inside `allowed`.
proof fn lemma_cheapest_allowed(p: Position, sq: int, allowed: u64, white: bool)
    ensures
        cheapest_spec(p, sq, allowed, white).1 & allowed == cheapest_spec(
            p,
            sq,
            allowed,
            white,
        ).1,
{
    let us = p.pieces[side_idx(white)] & allowed;
    let pp = p.pieces[side_idx(white)];
    let back = crate::bitboard::shift_backward(white, bit(sq), 1);
    lemma_subset_shapes(
        (p.bb[0] & us) & (crate::bitboard::shift_left(back, 1) | crate::bitboard::shift_right(
            back,
            1,
        )),
        p.bb[0],
        pp,
        allowed,
        crate::bitboard::shift_left(back, 1) | crate::bitboard::shift_right(back, 1),
    );
    lemma_subset_shapes(
        (p.bb[1] & us) & crate::attacks::knight_att(sq),
        p.bb[1],
        pp,
        allowed,
        crate::attacks::knight_att(sq),
    );
    let b_att = us & crate::attacks::bishop_att(sq, allowed);
    lemma_subset_shapes(
        p.bb[2] & b_att,
        p.bb[2],
        pp,
        allowed,
        crate::attacks::bishop_att(sq, allowed),
    );
    let r_att = us & crate::attacks::rook_att(sq, allowed);
    lemma_subset_shapes(p.bb[3] & r_att, p.bb[3], pp, allowed, crate::attacks::rook_att(sq, allowed));
    lemma_subset_shapes((p.bb[4] & us) & (b_att | r_att), p.bb[4], pp, allowed, b_att | r_att);
    lemma_subset_shapes(
        (p.bb[5] & us) & crate::attacks::king_att(sq),
        p.bb[5],
        pp,
        allowed,
        crate::attacks::king_att(sq),
    );
}

/// Removing a present square lowers the population count.
pub proof fn lemma_popcnt_remove(a: u64, s: u64)
    requires
        s < 64,
        a & (1u64 << s) != 0,
    ensures
        popcnt(a ^ (1u64 << s)) < popcnt(a),
    decreases s,
{
    if s == 0 {
        assert((a ^ (1u64 << 0u64)) & 1 != 1 && (a ^ (1u64 << 0u64)) / 2 == a / 2 && a & 1 == 1
            && a != 0) by (bit_vector)
            requires
                a & (1u64 << 0u64) != 0,
        ;
    } else {
        assert(((a ^ (1u64 << s)) / 2 == (a / 2) ^ (1u64 << ((s - 1) as u64))) && ((a ^ (1u64 << s))
            & 1 == a & 1) && ((a / 2) & (1u64 << ((s - 1) as u64)) != 0) && a != 0 && a / 2 != 0)
            by (bit_vector)
            requires
                0 < s < 64 && a & (1u64 << s) != 0,
        ;
        lemma_popcnt_remove(a / 2, (s - 1) as u64);
    }
}

/// The running maximum of the exchange at `sq`: try each capturer square in
/// `list`, recurse on the remaining attackers, and stop early once the gain
/// of the capture can no longer be beaten.
pub open spec fn see_try_spec(
    p: Position,
    sq: int,
    piece_after: Piece,
    allowed: u64,
    white: bool,
    gain: int,
    list: Seq<u64>,
    k: int,
    value: int,
) -> int
    decreases popcnt(allowed), 0int, list.len() - k,
{
    if k < 0 || k >= list.len() {
        value
    } else {
        let from = list[k];
        let a2 = allowed ^ bit(from as int);
        if popcnt(a2) < popcnt(allowed) {
            let child = see_square_spec(p, sq, piece_after, a2, !white);
            let v2 = if gain - child > value {
                gain - child
            } else {
                value
            };
            if v2 >= gain {
                v2
            } else {
                see_try_spec(p, sq, piece_after, allowed, white, gain, list, k + 1, v2)
            }
        } else {
            value
        }
    }
}

/// The value `white` can win on `sq` holding `occupier` there, with only the
/// pieces in `allowed` taking part: the best of capturing with each cheapest
/// attacker, never less than standing pat at zero.
pub open spec fn see_square_spec(
    p: Position,
    sq: int,
    occupier: Piece,
    allowed: u64,
    white: bool,
) -> int
    decreases popcnt(allowed), 1int, 0int,
{
    let pick = cheapest_spec(p, sq, allowed, white);
    let capture_value = crate::movegen::piece_value(occupier);
    let promotion = pick.0 is Pawn && ((white && rank_of(sq) == 7) || (!white && rank_of(sq)
        == 0));
    let piece_after = if promotion {
        Piece::Queen
    } else {
        pick.0
    };
    let gain = capture_value + crate::movegen::piece_value(piece_after)
        - crate::movegen::piece_value(pick.0);
    see_try_spec(p, sq, piece_after, allowed, white, gain, crate::bitboard::sq_list(pick.1), 0, 0)
}

/// The static exchange evaluation of a move: the captured material plus any
/// promotion gain, less what the opponent wins back on the target square.
pub open spec fn see_spec(p: Position, m: Move) -> int {
    let allowed = p.all_pieces ^ (bit(m.from as int) & !bit(m.to as int));
    let piece_value = match m.captured {
        Some(c) => crate::movegen::piece_value(c),
        None => 0,
    };
    let piece_after_move = match m.promoted {
        Some(pp) => pp,
        None => m.piece,
    };
    let promotion_value = crate::movegen::piece_value(piece_after_move)
        - crate::movegen::piece_value(m.piece);
    piece_value + promotion_value - see_square_spec(
        p,
        m.to as int,
        piece_after_move,
        allowed,
        !p.white_to_move,
    )
}

/// The exchange balance of a move splits into the immediate material gain
/// less the opponent's best answer on the target square.
pub proof fn lemma_see_decomposition(p: Position, m: Move)
    ensures
        see_spec(p, m) == (match m.captured {
            Some(c) => crate::movegen::piece_value(c),
            None => 0int,
        }) + (crate::movegen::piece_value(
            match m.promoted {
                Some(pp) => pp,
                None => m.piece,
            },
        ) - crate::movegen::piece_value(m.piece)) - see_square_spec(
            p,
            m.to as int,
            match m.promoted {
                Some(pp) => pp,
                None => m.piece,
            },
            p.all_pieces ^ (bit(m.from as int) & !bit(m.to as int)),
            !p.white_to_move,
        ),
{
}

impl Position {
    /// The cheapest attackers of `sq` for side `white` within `allowed`.
    fn get_cheapest_captures(
        &self,
        tables: &crate::attacks::AttackTables,
        sq: Square,
        allowed_pieces: u64,
        white: bool,
    ) -> (r: (Piece, u64))
        requires
            tables.wf(),
            sq < 64,
        ensures
            r == cheapest_spec(*self, sq as int, allowed_pieces, white),
            r.1 & allowed_pieces == r.1,
    {
        proof {
            lemma_cheapest_allowed(*self, sq as int, allowed_pieces, white);
        }
        let us = self.us(white) & allowed_pieces;
        let back = crate::bitboard::backward(white, crate::bitboard::to_bb(sq), 1);
        let mut capturers = self.pawns() & us & (crate::bitboard::left(back, 1)
            | crate::bitboard::right(back, 1));
        if capturers != 0 {
            return (Piece::Pawn, capturers);
        }
        capturers = self.knights() & us & crate::attacks::knight_attacks(sq);
        if capturers != 0 {
            return (Piece::Knight, capturers);
        }
        let bishop_attacker_squares = us & crate::attacks::get_bishop_attacks_from(
            tables,
            sq,
            allowed_pieces,
        );
        capturers = self.bishops() & bishop_attacker_squares;
        if capturers != 0 {
            return (Piece::Bishop, capturers);
        }
        let rook_attacker_squares = us & crate::attacks::get_rook_attacks_from(
            tables,
            sq,
            allowed_pieces,
        );
        capturers = self.rooks() & rook_attacker_squares;
        if capturers != 0 {
            return (Piece::Rook, capturers);
        }
        capturers = self.queens() & us & (bishop_attacker_squares | rook_attacker_squares);
        if capturers != 0 {
            return (Piece::Queen, capturers);
        }
        capturers = self.kings() & us & crate::attacks::king_attacks(sq);
        (Piece::King, capturers)
    }

    /// The best exchange value for `white` on `sq` within `allowed_pieces`.
    fn see_square(
        &self,
        tables: &crate::attacks::AttackTables,
        sq: Square,
        occupier: Piece,
        allowed_pieces: u64,
        white: bool,
    ) -> (r: i16)
        requires
            tables.wf(),
            sq < 64,
        ensures
            r == see_square_spec(*self, sq as int, occupier, allowed_pieces, white),
            0 <= r <= 11000,
        decreases crate::bitboard::popcnt(allowed_pieces),
    {
        let pick = self.get_cheapest_captures(tables, sq, allowed_pieces, white);
        let piece = pick.0;
        let from_bb = pick.1;
        let capture_value = occupier.value();
        let promotion = piece.index() == 0 && (white && sq / 8 == 7 || !white && sq / 8 == 0);
        let piece_after_move = if promotion {
            Piece::Queen
        } else {
            piece
        };
        let promotion_value = piece_after_move.value() - piece.value();
        let gain = capture_value + promotion_value;
        let froms = crate::bitboard::squares(from_bb);
        proof {
            crate::bitboard::lemma_sq_list_members(from_bb);
        }
        let ghost glist = crate::bitboard::sq_list(from_bb);
        let mut value: i16 = 0;
        let mut i: usize = 0;
        while i < froms.len()
            invariant_except_break
                see_square_spec(*self, sq as int, occupier, allowed_pieces, white) == see_try_spec(
                    *self,
                    sq as int,
                    piece_after_move,
                    allowed_pieces,
                    white,
                    gain as int,
                    glist,
                    i as int,
                    value as int,
                ),
            invariant
                tables.wf(),
                sq < 64,
                froms@.map_values(|s: Square| s as u64) == glist,
                glist == crate::bitboard::sq_list(from_bb),
                from_bb & allowed_pieces == from_bb,
                forall|j: int| 0 <= j < glist.len() ==> glist[j] < 64 && has(from_bb, glist[j] as int),
                i <= froms@.len(),
                0 < gain <= 10900,
                0 <= value <= gain,
                gain == see_square_gain(*self, sq as int, occupier, allowed_pieces, white),
                piece_after_move == see_square_piece_after(
                    *self,
                    sq as int,
                    occupier,
                    allowed_pieces,
                    white,
                ),
            ensures
                value == see_square_spec(*self, sq as int, occupier, allowed_pieces, white),
            decreases froms@.len() - i,
        {
            let from = froms[i];
            proof {
                assert(glist[i as int] == from as u64);
                assert(has(from_bb, from as int));
                crate::bitboard::lemma_bit_index(from_bb, allowed_pieces, from as u64);
                assert(has(allowed_pieces, from as int)) by {
                    assert((from_bb & allowed_pieces) & (1u64 << (from as u64)) != 0);
                    crate::bitboard::lemma_bit_index(from_bb, allowed_pieces, from as u64);
                }
                lemma_popcnt_remove(allowed_pieces, from as u64);
            }
            let child = self.see_square(
                tables,
                sq,
                piece_after_move,
                allowed_pieces ^ crate::bitboard::to_bb(from),
                !white,
            );
            let attempt = gain - child;
            if attempt > value {
                value = attempt;
            }
            i += 1;
            if value >= gain {
                break;
            }
        }
        value
    }

    /// Static exchange evaluation of `mov`: the material this side wins on
    /// `mov.to` if both sides keep capturing with their cheapest attackers.
    pub fn see(&self, tables: &crate::attacks::AttackTables, mov: Move) -> (r: i16)
        requires
            tables.wf(),
            mov.from < 64,
            mov.to < 64,
        ensures
            r == see_spec(*self, mov),
    {
        let allowed_pieces = self.all_pieces ^ crate::bitboard::to_bb(mov.from)
            & !crate::bitboard::to_bb(mov.to);
        let piece_value = match mov.captured {
            Some(c) => c.value(),
            None => 0,
        };
        let piece_after_move = match mov.promoted {
            Some(pp) => pp,
            None => mov.piece,
        };
        let promotion_value = piece_after_move.value() - mov.piece.value();
        piece_value + promotion_value - self.see_square(
            tables,
            mov.to,
            piece_after_move,
            allowed_pieces,
            !self.white_to_move,
        )
    }
}

/// The immediate gain of the first recapture in `see_square_spec`.
pub open spec fn see_square_gain(
    p: Position,
    sq: int,
    occupier: Piece,
    allowed: u64,
    white: bool,
) -> int {
    let pick = cheapest_spec(p, sq, allowed, white);
    let promotion = pick.0 is Pawn && ((white && rank_of(sq) == 7) || (!white && rank_of(sq)
        == 0));
    let piece_after = if promotion {
        Piece::Queen
    } else {
        pick.0
    };
    crate::movegen::piece_value(occupier) + crate::movegen::piece_value(piece_after)
        - crate::movegen::piece_value(pick.0)
}

/// The piece left on the square by the first recapture in `see_square_spec`.
pub open spec fn see_square_piece_after(
    p: Position,
    sq: int,
    occupier: Piece,
    allowed: u64,
    white: bool,
) -> Piece {
    let pick = cheapest_spec(p, sq, allowed, white);
    let promotion = pick.0 is Pawn && ((white && rank_of(sq) == 7) || (!white && rank_of(sq)
        == 0));
    if promotion {
        Piece::Queen
    } else {
        pick.0
    }
}


/// The standard starting position.
pub open spec fn starting_spec() -> Position {
    Position {
        color: 0x0000_0000_0000_FFFF,
        bb: [
            0x00FF_0000_0000_FF00u64,
            0x4200_0000_0000_0042,
            0x2400_0000_0000_0024,
            0x8100_0000_0000_0081,
            0x0800_0000_0000_0008,
            0x1000_0000_0000_0010,
        ],
        pieces: [0xFFFF_0000_0000_0000, 0x0000_0000_0000_FFFF],
        white_to_move: true,
        fullmove: 1,
        details: IrreversibleDetails {
            halfmove: 0,
            en_passant: 255,
            castling: CASTLE_WHITE_KSIDE | CASTLE_WHITE_QSIDE | CASTLE_BLACK_KSIDE
                | CASTLE_BLACK_QSIDE,
        },
        all_pieces: 0xFFFF_0000_0000_FFFF,
        king_sq: [60, 4],
    }
}

impl Position {
    /// The standard starting position.
    pub fn starting() -> (r: Position)
        ensures
            r == starting_spec(),
            r.wf(),
    {
        let r = Position {
            color: 0x0000_0000_0000_FFFF,
            bb: [
                0x00FF_0000_0000_FF00u64,
                0x4200_0000_0000_0042,
                0x2400_0000_0000_0024,
                0x8100_0000_0000_0081,
                0x0800_0000_0000_0008,
                0x1000_0000_0000_0010,
            ],
            pieces: [0xFFFF_0000_0000_0000, 0x0000_0000_0000_FFFF],
            white_to_move: true,
            fullmove: 1,
            details: IrreversibleDetails {
                halfmove: 0,
                en_passant: 255,
                castling: CASTLE_WHITE_KSIDE | CASTLE_WHITE_QSIDE | CASTLE_BLACK_KSIDE
                    | CASTLE_BLACK_QSIDE,
            },
            all_pieces: 0xFFFF_0000_0000_FFFF,
            king_sq: [60, 4],
        };
        proof {
            assert(r.bb =~= starting_spec().bb);
            assert(r.pieces =~= starting_spec().pieces);
            assert(r.king_sq =~= starting_spec().king_sq);
            assert(r =~= starting_spec());
            lemma_starting_wf();
        }
        r
    }
}

/// The starting position satisfies the position invariant.
proof fn lemma_starting_wf()
    ensures
        starting_spec().wf(),
{
    let p = starting_spec();
    assert(0xFFFF_0000_0000_FFFFu64 == (0x00FF_0000_0000_FF00u64 | 0x4200_0000_0000_0042
        | 0x2400_0000_0000_0024 | 0x8100_0000_0000_0081 | 0x0800_0000_0000_0008
        | 0x1000_0000_0000_0010) && (0x0000_0000_0000_FFFFu64 == 0xFFFF_0000_0000_FFFFu64
        & 0x0000_0000_0000_FFFF) && (0xFFFF_0000_0000_0000u64 == 0xFFFF_0000_0000_FFFFu64
        & !0x0000_0000_0000_FFFF)) by (bit_vector);
    assert(p.derived_ok());
    assert(forall|i: int, j: int| 0 <= i < j < 6 ==> p.bb[i] & p.bb[j] == 0) by {
        assert((0x00FF_0000_0000_FF00u64 & 0x4200_0000_0000_0042 == 0) && (
        0x00FF_0000_0000_FF00u64 & 0x2400_0000_0000_0024 == 0) && (0x00FF_0000_0000_FF00u64
            & 0x8100_0000_0000_0081 == 0) && (0x00FF_0000_0000_FF00u64 & 0x0800_0000_0000_0008
            == 0) && (0x00FF_0000_0000_FF00u64 & 0x1000_0000_0000_0010 == 0) && (
        0x4200_0000_0000_0042u64 & 0x2400_0000_0000_0024 == 0) && (0x4200_0000_0000_0042u64
            & 0x8100_0000_0000_0081 == 0) && (0x4200_0000_0000_0042u64 & 0x0800_0000_0000_0008
            == 0) && (0x4200_0000_0000_0042u64 & 0x1000_0000_0000_0010 == 0) && (
        0x2400_0000_0000_0024u64 & 0x8100_0000_0000_0081 == 0) && (0x2400_0000_0000_0024u64
            & 0x0800_0000_0000_0008 == 0) && (0x2400_0000_0000_0024u64 & 0x1000_0000_0000_0010
            == 0) && (0x8100_0000_0000_0081u64 & 0x0800_0000_0000_0008 == 0) && (
        0x8100_0000_0000_0081u64 & 0x1000_0000_0000_0010 == 0) && (0x0800_0000_0000_0008u64
            & 0x1000_0000_0000_0010 == 0)) by (bit_vector);
    }
    assert((0x1000_0000_0000_0010u64 & 0x0000_0000_0000_FFFF == (1u64 << 4u64)) && (
    0x1000_0000_0000_0010u64 & 0xFFFF_0000_0000_0000 == (1u64 << 60u64)) && (
    0x0000_0000_0000_FFFFu64 & !0xFFFF_0000_0000_FFFF == 0)) by (bit_vector);
    assert(p.kings_ok());
    assert((1u8 | 2 | 4 | 8) == 15) by (bit_vector);
    assert(p.details_ok());
}


/// The board-consistency a pseudo-legal move enjoys: the mover stands on its
/// source, the victim (if any) on the capture square, quiet targets are
/// empty, promotions are pawn moves to a new piece kind, castling has its
/// exact shape with the rook in the corner, and no king is captured.
pub open spec fn move_ok(p: Position, m: Move) -> bool {
    let w = p.white_to_move;
    let us = p.pieces[side_idx(w)];
    let them = p.pieces[side_idx(!w)];
    &&& m.from < 64
    &&& m.to < 64
    &&& m.from != m.to
    &&& has(p.bb[piece_idx(m.piece)] & us, m.from as int)
    &&& (match m.captured {
        Some(c) => !(c is King) && (if m.en_passant {
            &&& m.piece is Pawn
            &&& c is Pawn
            &&& 0 <= ep_victim(w, m.to as int) < 64
            &&& ep_victim(w, m.to as int) != m.from
            &&& ep_victim(w, m.to as int) != m.to
            &&& has(p.bb[0] & them, ep_victim(w, m.to as int))
            &&& !(has(p.all_pieces, m.to as int))
        } else {
            has(p.bb[piece_idx(c)] & them, m.to as int)
        }),
        None => !(has(p.all_pieces, m.to as int)),
    })
    &&& (match m.promoted {
        Some(pp) => m.piece is Pawn && !(pp is Pawn) && !(pp is King),
        None => true,
    })
    &&& (is_ks_castle(m) ==> m.captured is None && m.promoted is None && (if w {
        m.from == 4 && m.to == 6
    } else {
        m.from == 60 && m.to == 62
    }) && has(p.bb[3] & us, m.to as int + 1) && !(has(p.all_pieces, m.to as int - 1)))
    &&& (is_qs_castle(m) ==> m.captured is None && m.promoted is None && (if w {
        m.from == 4 && m.to == 2
    } else {
        m.from == 60 && m.to == 58
    }) && has(p.bb[3] & us, m.to as int - 2) && !(has(p.all_pieces, m.to as int + 1)))
    &&& (m.piece is King ==> m.from == p.king_sq[side_idx(w)])
}

/// Whether the move toggles square `s` of piece table `i`: the source for
/// the mover's table, the victim's square for its table, the target for the
/// arriving piece's table, and the rook squares on castling.
pub open spec fn toggle_bb(w: bool, m: Move, i: int, s: int) -> bool {
    let a = piece_idx(m.piece) == i && s == m.from;
    let b = match m.captured {
        Some(c) => if m.en_passant {
            i == 0 && s == ep_victim(w, m.to as int)
        } else {
            piece_idx(c) == i && s == m.to
        },
        None => false,
    };
    let c2 = match m.promoted {
        Some(pp) => piece_idx(pp) == i && s == m.to,
        None => piece_idx(m.piece) == i && s == m.to,
    };
    let d2 = if is_ks_castle(m) && i == 3 {
        (s == m.to + 1) != (s == m.to - 1)
    } else if is_qs_castle(m) && i == 3 {
        (s == m.to - 2) != (s == m.to + 1)
    } else {
        false
    };
    ((a != b) != c2) != d2
}

/// Whether the move toggles square `s` of the white-occupancy board.
pub open spec fn toggle_color(w: bool, m: Move, p: Position, s: int) -> bool {
    let cap = match m.captured {
        Some(c) => if w {
            false
        } else {
            if m.en_passant {
                s == ep_victim(w, m.to as int)
            } else {
                s == m.to
            }
        },
        None => false,
    };
    let castle = if w && is_ks_castle(m) {
        (s == m.to + 1) != (s == m.to - 1)
    } else if w && is_qs_castle(m) {
        (s == m.to - 2) != (s == m.to + 1)
    } else {
        false
    };
    let mover = if w {
        (s == m.to) != (s == m.from)
    } else {
        false
    };
    (cap != castle) != mover
}

/// The empty bitboard holds no square.
pub proof fn lemma_has_zero(s: u64)
    requires
        s < 64,
    ensures
        !(has(0, s as int)),
{
    crate::bitboard::lemma_bit_step(1u64 << s, 0, 0);
}

/// Membership of one square in a singleton, total over the toggle squares a
/// move can name.
proof fn lemma_has_bit(t: int, s: u64)
    requires
        s < 64,
        0 <= t < 64,
    ensures
        has(bit(t), s as int) == (s == t),
{
    crate::bitboard::lemma_bit_single(t as u64, s as u64);
}

/// Membership in a piece table after the move follows the before-membership
/// toggled at the move's squares.
proof fn lemma_bb_after_member(p: Position, w: bool, m: Move, i: int, s: u64)
    requires
        move_ok(p, m),
        s < 64,
        0 <= i < 6,
        w == p.white_to_move,
    ensures
        has(bb_after(p, w, m, i), s as int) == (has(p.bb[i], s as int) != toggle_bb(
            w,
            m,
            i,
            s as int,
        )),
{
    let si = s as int;
    crate::bitboard::lemma_bit_index(p.bb[i], d_from(m, i), s);
    crate::bitboard::lemma_bit_index(p.bb[i] ^ d_from(m, i), d_capture(w, m, i), s);
    crate::bitboard::lemma_bit_index(
        (p.bb[i] ^ d_from(m, i)) ^ d_capture(w, m, i),
        d_to(m, i),
        s,
    );
    crate::bitboard::lemma_bit_index(
        ((p.bb[i] ^ d_from(m, i)) ^ d_capture(w, m, i)) ^ d_to(m, i),
        d_castle(m, i),
        s,
    );
    lemma_has_zero(s);
    lemma_has_bit(m.from as int, s);
    lemma_has_bit(m.to as int, s);
    if m.en_passant && m.captured is Some {
        lemma_has_bit(ep_victim(w, m.to as int), s);
    }
    if is_ks_castle(m) {
        lemma_has_bit(m.to as int + 1, s);
        lemma_has_bit(m.to as int - 1, s);
        crate::bitboard::lemma_bit_index(bit(m.to as int + 1), bit(m.to as int - 1), s);
        assert(d_castle(m, 3) == bit(m.to as int + 1) ^ bit(m.to as int - 1));
    }
    if is_qs_castle(m) {
        lemma_has_bit(m.to as int - 2, s);
        lemma_has_bit(m.to as int + 1, s);
        crate::bitboard::lemma_bit_index(bit(m.to as int - 2), bit(m.to as int + 1), s);
    }
}

/// Membership in the white-occupancy board after the move follows the
/// before-membership toggled at the move's white squares.
proof fn lemma_color_after_member(p: Position, w: bool, m: Move, s: u64)
    requires
        move_ok(p, m),
        s < 64,
        w == p.white_to_move,
    ensures
        has(color_after_make(p, w, m), s as int) == (has(p.color, s as int) != toggle_color(
            w,
            m,
            p,
            s as int,
        )),
{
    crate::bitboard::lemma_bit_index(p.color, d_color_capture(w, m), s);
    crate::bitboard::lemma_bit_index(
        p.color ^ d_color_capture(w, m),
        d_color_castle(w, m),
        s,
    );
    crate::bitboard::lemma_bit_index(
        (p.color ^ d_color_capture(w, m)) ^ d_color_castle(w, m),
        d_color_mover(w, m),
        s,
    );
    lemma_has_zero(s);
    lemma_has_bit(m.from as int, s);
    lemma_has_bit(m.to as int, s);
    crate::bitboard::lemma_bit_index(bit(m.to as int), bit(m.from as int), s);
    if m.en_passant && m.captured is Some {
        lemma_has_bit(ep_victim(w, m.to as int), s);
    }
    if is_ks_castle(m) {
        lemma_has_bit(m.to as int + 1, s);
        lemma_has_bit(m.to as int - 1, s);
        crate::bitboard::lemma_bit_index(bit(m.to as int + 1), bit(m.to as int - 1), s);
    }
    if is_qs_castle(m) {
        lemma_has_bit(m.to as int - 2, s);
        lemma_has_bit(m.to as int + 1, s);
        crate::bitboard::lemma_bit_index(bit(m.to as int - 2), bit(m.to as int + 1), s);
    }
}

/// Membership in the recomputed occupancy union and side boards, square by
/// square.
proof fn lemma_after_boards_member(p: Position, m: Move, s: u64)
    requires
        move_ok(p, m),
        s < 64,
    ensures
        ({
            let w = p.white_to_move;
            let q = make_move_spec(p, m);
            &&& has(q.all_pieces, s as int) == (has(q.bb[0], s as int) || has(q.bb[1], s as int)
                || has(q.bb[2], s as int) || has(q.bb[3], s as int) || has(q.bb[4], s as int)
                || has(q.bb[5], s as int))
            &&& has(q.pieces[1], s as int) == (has(q.all_pieces, s as int) && has(
                q.color,
                s as int,
            ))
            &&& has(q.pieces[0], s as int) == (has(q.all_pieces, s as int) && !(has(
                q.color,
                s as int,
            )))
        }),
{
    let q = make_move_spec(p, m);
    crate::bitboard::lemma_bit_index(q.bb[0], q.bb[1], s);
    crate::bitboard::lemma_bit_index(q.bb[0] | q.bb[1], q.bb[2], s);
    crate::bitboard::lemma_bit_index(q.bb[0] | q.bb[1] | q.bb[2], q.bb[3], s);
    crate::bitboard::lemma_bit_index(q.bb[0] | q.bb[1] | q.bb[2] | q.bb[3], q.bb[4], s);
    crate::bitboard::lemma_bit_index(q.bb[0] | q.bb[1] | q.bb[2] | q.bb[3] | q.bb[4], q.bb[5], s);
    crate::bitboard::lemma_bit_index(q.all_pieces, q.color, s);
    crate::bitboard::lemma_bit_index(q.all_pieces, !q.color, s);
    crate::bitboard::lemma_bit_index(q.color, q.color, s);
}

/// Membership in the position's boards before the move, unpacked square by
/// square from the invariant and the move's consistency facts.
proof fn lemma_before_boards_member(p: Position, m: Move, s: u64)
    requires
        p.wf(),
        s < 64,
    ensures
        has(p.all_pieces, s as int) == (has(p.bb[0], s as int) || has(p.bb[1], s as int) || has(
            p.bb[2],
            s as int,
        ) || has(p.bb[3], s as int) || has(p.bb[4], s as int) || has(p.bb[5], s as int)),
        has(p.pieces[1], s as int) == (has(p.all_pieces, s as int) && has(p.color, s as int)),
        has(p.pieces[0], s as int) == (has(p.all_pieces, s as int) && !(has(p.color, s as int))),
        forall|i: int, j: int|
            0 <= i < j < 6 ==> !(has(p.bb[i], s as int) && has(p.bb[j], s as int)),
{
    crate::bitboard::lemma_bit_index(p.bb[0], p.bb[1], s);
    crate::bitboard::lemma_bit_index(p.bb[0] | p.bb[1], p.bb[2], s);
    crate::bitboard::lemma_bit_index(p.bb[0] | p.bb[1] | p.bb[2], p.bb[3], s);
    crate::bitboard::lemma_bit_index(p.bb[0] | p.bb[1] | p.bb[2] | p.bb[3], p.bb[4], s);
    crate::bitboard::lemma_bit_index(p.bb[0] | p.bb[1] | p.bb[2] | p.bb[3] | p.bb[4], p.bb[5], s);
    crate::bitboard::lemma_bit_index(p.all_pieces, p.color, s);
    crate::bitboard::lemma_bit_index(p.all_pieces, !p.color, s);
    crate::bitboard::lemma_bit_index(p.color, p.color, s);
    assert forall|i: int, j: int| 0 <= i < j < 6 implies !(has(p.bb[i], s as int) && has(
        p.bb[j],
        s as int,
    )) by {
        crate::bitboard::lemma_bit_index(p.bb[i], p.bb[j], s);
        lemma_has_zero(s);
        assert(p.bb[i] & p.bb[j] == 0);
    }
}


/// Two bitboards with no common square have an empty intersection.
pub proof fn lemma_empty_of_pointwise(a: u64, b: u64)
    requires
        forall|s: u64| s < 64 ==> !(has(a, s as int) && has(b, s as int)),
    ensures
        a & b == 0,
{
    assert forall|s: u64| s < 64 implies ((a & b) & (1u64 << s) != 0) == (0u64 & (1u64 << s)
        != 0) by {
        crate::bitboard::lemma_bit_index(a, b, s);
        lemma_has_zero(s);
        assert(!(has(a, s as int) && has(b, s as int)));
        assert(!(has(a & b, s as int)));
        assert(!(has(0, s as int)));
    }
    crate::bitboard::lemma_bb_ext(a & b, 0);
}

/// A bitboard whose members are exactly one square is that square's
/// singleton.
proof fn lemma_singleton_of_pointwise(a: u64, t: int)
    requires
        0 <= t < 64,
        forall|s: u64| s < 64 ==> has(a, s as int) == (s == t),
    ensures
        a == bit(t),
{
    assert forall|s: u64| s < 64 implies (a & (1u64 << s) != 0) == (bit(t) & (1u64 << s) != 0) by {
        lemma_has_bit(t, s);
        assert(has(a, s as int) == (s as int == t));
        assert(has(bit(t), s as int) == (s as int == t));
    }
    crate::bitboard::lemma_bb_ext(a, bit(t));
}

/// The square classifications a pseudo-legal move fixes: which piece tables
/// hold the source, target, victim and castling squares before the move.
proof fn lemma_move_squares(p: Position, m: Move)
    requires
        p.wf(),
        move_ok(p, m),
    ensures
        forall|k: int|
            0 <= k < 6 && k != piece_idx(m.piece) ==> !(has(#[trigger] p.bb[k], m.from as int)),
        has(p.bb[piece_idx(m.piece)], m.from as int),
        has(p.pieces[side_idx(p.white_to_move)], m.from as int),
        (match m.captured {
            Some(c) => if m.en_passant {
                (forall|k: int| 0 <= k < 6 ==> !(has(#[trigger] p.bb[k], m.to as int))) && (
                forall|k: int|
                    0 <= k < 6 && k != 0 ==> !(has(
                        #[trigger] p.bb[k],
                        ep_victim(p.white_to_move, m.to as int),
                    ))) && has(p.bb[0], ep_victim(p.white_to_move, m.to as int)) && has(
                    p.pieces[side_idx(!p.white_to_move)],
                    ep_victim(p.white_to_move, m.to as int),
                )
            } else {
                (forall|k: int|
                    0 <= k < 6 && k != piece_idx(c) ==> !(has(#[trigger] p.bb[k], m.to as int)))
                    && has(p.bb[piece_idx(c)], m.to as int) && has(
                    p.pieces[side_idx(!p.white_to_move)],
                    m.to as int,
                )
            },
            None => forall|k: int| 0 <= k < 6 ==> !(has(#[trigger] p.bb[k], m.to as int)),
        }),
        (is_ks_castle(m) ==> (forall|k: int|
            0 <= k < 6 && k != 3 ==> !(has(#[trigger] p.bb[k], m.to as int + 1))) && (forall|
            k: int,
        |
            0 <= k < 6 ==> !(has(#[trigger] p.bb[k], m.to as int - 1))) && has(
            p.pieces[side_idx(p.white_to_move)],
            m.to as int + 1,
        )),
        (is_qs_castle(m) ==> (forall|k: int|
            0 <= k < 6 && k != 3 ==> !(has(#[trigger] p.bb[k], m.to as int - 2))) && (forall|
            k: int,
        |
            0 <= k < 6 ==> !(has(#[trigger] p.bb[k], m.to as int + 1))) && has(
            p.pieces[side_idx(p.white_to_move)],
            m.to as int - 2,
        )),
{
    let w = p.white_to_move;
    let us = p.pieces[side_idx(w)];
    let them = p.pieces[side_idx(!w)];
    crate::bitboard::lemma_bit_index(p.bb[piece_idx(m.piece)], us, m.from as u64);
    lemma_before_boards_member(p, m, m.from as u64);
    lemma_before_boards_member(p, m, m.to as u64);
    match m.captured {
        Some(c) => {
            if m.en_passant {
                crate::bitboard::lemma_bit_index(
                    p.bb[0],
                    them,
                    ep_victim(w, m.to as int) as u64,
                );
                lemma_before_boards_member(p, m, ep_victim(w, m.to as int) as u64);
            } else {
                crate::bitboard::lemma_bit_index(p.bb[piece_idx(c)], them, m.to as u64);
            }
        },
        None => {},
    }
    if is_ks_castle(m) {
        crate::bitboard::lemma_bit_index(p.bb[3], us, (m.to + 1) as u64);
        lemma_before_boards_member(p, m, (m.to + 1) as u64);
        lemma_before_boards_member(p, m, (m.to - 1) as u64);
    }
    if is_qs_castle(m) {
        crate::bitboard::lemma_bit_index(p.bb[3], us, (m.to - 2) as u64);
        lemma_before_boards_member(p, m, (m.to - 2) as u64);
        lemma_before_boards_member(p, m, (m.to + 1) as u64);
    }
}

/// The piece boards stay pairwise disjoint across a pseudo-legal move.
#[verifier::rlimit(100)]
#[verifier::spinoff_prover]
proof fn lemma_make_bb_disjoint(p: Position, m: Move)
    requires
        p.wf(),
        move_ok(p, m),
    ensures
        make_move_spec(p, m).bb_disjoint(),
{
    let w = p.white_to_move;
    let q = make_move_spec(p, m);
    lemma_move_squares(p, m);
    assert forall|i: int, j: int| 0 <= i < j < 6 implies q.bb[i] & q.bb[j] == 0 by {
        assert forall|s: u64| s < 64 implies !(has(q.bb[i], s as int) && has(
            q.bb[j],
            s as int,
        )) by {
            lemma_bb_after_member(p, w, m, i, s);
            lemma_bb_after_member(p, w, m, j, s);
            lemma_before_boards_member(p, m, s);
        }
        lemma_empty_of_pointwise(q.bb[i], q.bb[j]);
    }
}

/// Each side keeps exactly one king, on its updated cached square, across a
/// pseudo-legal move.
#[verifier::rlimit(100)]
#[verifier::spinoff_prover]
proof fn lemma_make_kings(p: Position, m: Move)
    requires
        p.wf(),
        move_ok(p, m),
    ensures
        make_move_spec(p, m).kings_ok(),
{
    let w = p.white_to_move;
    let q = make_move_spec(p, m);
    let ks1 = p.king_sq[1] as int;
    let ks0 = p.king_sq[0] as int;
    lemma_move_squares(p, m);
    lemma_has_bit(ks1, p.king_sq[1] as u64);
    lemma_has_bit(ks0, p.king_sq[0] as u64);
    assert(has(p.bb[5] & p.pieces[1], ks1));
    assert(has(p.bb[5] & p.pieces[0], ks0));
    crate::bitboard::lemma_bit_index(p.bb[5], p.pieces[1], p.king_sq[1] as u64);
    crate::bitboard::lemma_bit_index(p.bb[5], p.pieces[0], p.king_sq[0] as u64);
    assert forall|s: u64| s < 64 implies (has(p.bb[5], s as int) && has(p.pieces[1], s as int))
        == (s as int == ks1) by {
        crate::bitboard::lemma_bit_index(p.bb[5], p.pieces[1], s);
        lemma_has_bit(ks1, s);
    }
    assert forall|s: u64| s < 64 implies (has(p.bb[5], s as int) && has(p.pieces[0], s as int))
        == (s as int == ks0) by {
        crate::bitboard::lemma_bit_index(p.bb[5], p.pieces[0], s);
        lemma_has_bit(ks0, s);
    }
    assert forall|s: u64| s < 64 implies !(has(p.color, s as int) && !(has(
        p.all_pieces,
        s as int,
    ))) by {
        crate::bitboard::lemma_bit_index(p.color, !p.all_pieces, s);
        crate::bitboard::lemma_bit_index(p.all_pieces, p.all_pieces, s);
        lemma_has_zero(s);
        assert(p.color & !p.all_pieces == 0);
    }
    lemma_before_boards_member(p, m, p.king_sq[1] as u64);
    lemma_before_boards_member(p, m, p.king_sq[0] as u64);
    lemma_before_boards_member(p, m, m.from as u64);
    lemma_before_boards_member(p, m, m.to as u64);
    if m.en_passant && m.captured is Some {
        lemma_before_boards_member(p, m, ep_victim(w, m.to as int) as u64);
    }
    if is_ks_castle(m) {
        lemma_before_boards_member(p, m, (m.to + 1) as u64);
        lemma_before_boards_member(p, m, (m.to - 1) as u64);
    }
    if is_qs_castle(m) {
        lemma_before_boards_member(p, m, (m.to - 2) as u64);
        lemma_before_boards_member(p, m, (m.to + 1) as u64);
    }
    let nks1 = q.king_sq[1] as int;
    let nks0 = q.king_sq[0] as int;
    assert(nks1 < 64 && nks0 < 64);
    assert forall|s: u64| s < 64 implies has(q.bb[5] & q.pieces[1], s as int) == (s as int
        == nks1) by {
        let si = s as int;
        crate::bitboard::lemma_bit_index(q.bb[5], q.pieces[1], s);
        lemma_bb_after_member(p, w, m, 5, s);
        lemma_bb_after_member(p, w, m, 0, s);
        lemma_bb_after_member(p, w, m, 1, s);
        lemma_bb_after_member(p, w, m, 2, s);
        lemma_bb_after_member(p, w, m, 3, s);
        lemma_bb_after_member(p, w, m, 4, s);
        lemma_color_after_member(p, w, m, s);
        lemma_after_boards_member(p, m, s);
        lemma_before_boards_member(p, m, s);
        lemma_kings_case(p, m, s);
    }
    lemma_singleton_of_pointwise(q.bb[5] & q.pieces[1], nks1);
    assert forall|s: u64| s < 64 implies has(q.bb[5] & q.pieces[0], s as int) == (s as int
        == nks0) by {
        let si = s as int;
        crate::bitboard::lemma_bit_index(q.bb[5], q.pieces[0], s);
        lemma_bb_after_member(p, w, m, 5, s);
        lemma_bb_after_member(p, w, m, 0, s);
        lemma_bb_after_member(p, w, m, 1, s);
        lemma_bb_after_member(p, w, m, 2, s);
        lemma_bb_after_member(p, w, m, 3, s);
        lemma_bb_after_member(p, w, m, 4, s);
        lemma_color_after_member(p, w, m, s);
        lemma_after_boards_member(p, m, s);
        lemma_before_boards_member(p, m, s);
        lemma_kings_case(p, m, s);
    }
    lemma_singleton_of_pointwise(q.bb[5] & q.pieces[0], nks0);
}

/// The king-table and colour toggles of a pseudo-legal move at one square:
/// only a king move touches the king table, at its own two squares, and the
/// colour toggles stay off both kings' untouched squares.
#[verifier::rlimit(100)]
#[verifier::spinoff_prover]
proof fn lemma_kings_case(p: Position, m: Move, s: u64)
    requires
        p.wf(),
        move_ok(p, m),
        s < 64,
    ensures
        ({
            let w = p.white_to_move;
            let si = s as int;
            let ks1 = p.king_sq[1] as int;
            let ks0 = p.king_sq[0] as int;
            &&& (toggle_bb(w, m, 5, si) == (m.piece is King && (si == m.from || si == m.to)))
            &&& (m.piece is King ==> m.from == (if w {
                ks1
            } else {
                ks0
            }))
            &&& (si == m.to ==> (has(p.color, si) != toggle_color(w, m, p, si)) == w)
            &&& ((has(p.bb[5], si) && si != m.from) ==> toggle_color(w, m, p, si) == false)
            &&& ((has(p.bb[5], si) && si != m.from) ==> (si == ks1 || si == ks0))
            &&& ((si == ks1 && !(m.piece is King && w)) ==> si != m.from && si != m.to)
            &&& ((si == ks0 && !(m.piece is King && !w)) ==> si != m.from && si != m.to)
        }),
{
    let w = p.white_to_move;
    let si = s as int;
    let ks1 = p.king_sq[1] as int;
    let ks0 = p.king_sq[0] as int;
    lemma_move_squares(p, m);
    lemma_before_boards_member(p, m, s);
    lemma_before_boards_member(p, m, m.from as u64);
    lemma_before_boards_member(p, m, m.to as u64);
    lemma_before_boards_member(p, m, p.king_sq[1] as u64);
    lemma_before_boards_member(p, m, p.king_sq[0] as u64);
    lemma_has_bit(ks1, p.king_sq[1] as u64);
    lemma_has_bit(ks0, p.king_sq[0] as u64);
    lemma_has_bit(ks1, s);
    lemma_has_bit(ks0, s);
    crate::bitboard::lemma_bit_index(p.bb[5], p.pieces[1], p.king_sq[1] as u64);
    crate::bitboard::lemma_bit_index(p.bb[5], p.pieces[0], p.king_sq[0] as u64);
    crate::bitboard::lemma_bit_index(p.bb[5], p.pieces[1], s);
    crate::bitboard::lemma_bit_index(p.bb[5], p.pieces[0], s);
    assert((has(p.bb[5], si) && has(p.pieces[1], si)) == (si == ks1)) by {
        assert(p.bb[5] & p.pieces[1] == bit(ks1));
        assert(has(p.bb[5] & p.pieces[1], si) == (si == ks1));
    }
    assert((has(p.bb[5], si) && has(p.pieces[0], si)) == (si == ks0)) by {
        assert(p.bb[5] & p.pieces[0] == bit(ks0));
        assert(has(p.bb[5] & p.pieces[0], si) == (si == ks0));
    }
    assert(!(has(p.color, si)) || has(p.all_pieces, si)) by {
        crate::bitboard::lemma_bit_index(p.color, !p.all_pieces, s);
        crate::bitboard::lemma_bit_index(p.all_pieces, p.all_pieces, s);
        lemma_has_zero(s);
        assert(p.color & !p.all_pieces == 0);
        assert(has(p.color & !p.all_pieces, si) == false);
    }
    if m.en_passant && m.captured is Some {
        lemma_before_boards_member(p, m, ep_victim(w, m.to as int) as u64);
    }
    if is_ks_castle(m) {
        lemma_before_boards_member(p, m, (m.to + 1) as u64);
        lemma_before_boards_member(p, m, (m.to - 1) as u64);
    }
    if is_qs_castle(m) {
        lemma_before_boards_member(p, m, (m.to - 2) as u64);
        lemma_before_boards_member(p, m, (m.to + 1) as u64);
    }
}

/// White-occupancy bits stay on occupied squares across a pseudo-legal move.
#[verifier::rlimit(100)]
#[verifier::spinoff_prover]
proof fn lemma_make_color_ok(p: Position, m: Move)
    requires
        p.wf(),
        move_ok(p, m),
    ensures
        make_move_spec(p, m).color_ok(),
{
    let w = p.white_to_move;
    let q = make_move_spec(p, m);
    lemma_move_squares(p, m);
    lemma_before_boards_member(p, m, m.from as u64);
    lemma_before_boards_member(p, m, m.to as u64);
    if m.en_passant && m.captured is Some {
        lemma_before_boards_member(p, m, ep_victim(w, m.to as int) as u64);
    }
    if is_ks_castle(m) {
        lemma_before_boards_member(p, m, (m.to + 1) as u64);
        lemma_before_boards_member(p, m, (m.to - 1) as u64);
    }
    if is_qs_castle(m) {
        lemma_before_boards_member(p, m, (m.to - 2) as u64);
        lemma_before_boards_member(p, m, (m.to + 1) as u64);
    }
    assert forall|s: u64| s < 64 implies !(has(q.color, s as int) && has(
        !q.all_pieces,
        s as int,
    )) by {
        let si = s as int;
        lemma_color_after_member(p, w, m, s);
        lemma_after_boards_member(p, m, s);
        lemma_before_boards_member(p, m, s);
        lemma_bb_after_member(p, w, m, 0, s);
        lemma_bb_after_member(p, w, m, 1, s);
        lemma_bb_after_member(p, w, m, 2, s);
        lemma_bb_after_member(p, w, m, 3, s);
        lemma_bb_after_member(p, w, m, 4, s);
        lemma_bb_after_member(p, w, m, 5, s);
        crate::bitboard::lemma_bit_index(q.all_pieces, q.all_pieces, s);
        assert(!(has(p.color, si)) || has(p.all_pieces, si)) by {
            crate::bitboard::lemma_bit_index(p.color, !p.all_pieces, s);
            crate::bitboard::lemma_bit_index(p.all_pieces, p.all_pieces, s);
            lemma_has_zero(s);
            assert(has(p.color & !p.all_pieces, si) == false);
        }
        if has(q.color, si) {
            if si == m.to {
                assert(has(q.bb[piece_idx(match m.promoted {
                    Some(pp) => pp,
                    None => m.piece,
                })], si));
            } else if is_ks_castle(m) && w && si == m.to + 1 {
                assert(toggle_color(w, m, p, si));
            } else if is_ks_castle(m) && w && si == m.to - 1 {
                assert(has(q.bb[3], si));
            } else if is_qs_castle(m) && w && si == m.to - 2 {
                assert(toggle_color(w, m, p, si));
            } else if is_qs_castle(m) && w && si == m.to + 1 {
                assert(has(q.bb[3], si));
            } else {
                assert(!(toggle_color(w, m, p, si)));
                assert(has(p.color, si));
                assert(has(p.all_pieces, si));
                assert(si != m.from);
            }
        }
    }
    assert(q.color & !q.all_pieces == 0) by {
        lemma_empty_of_pointwise(q.color, !q.all_pieces);
    }
}

/// Applying a pseudo-legal move preserves the position invariant: the
/// occupancy union and side boards are recomputed, the piece boards stay
/// disjoint, each side keeps one king on its cached square, colour bits mark
/// only pieces, and the details stay in range.
pub proof fn lemma_make_preserves_wf(p: Position, m: Move)
    requires
        p.wf(),
        move_ok(p, m),
    ensures
        make_move_spec(p, m).wf(),
{
    let q = make_move_spec(p, m);
    assert(q.derived_ok());
    crate::hash::lemma_and_le();
    assert(q.details_ok());
    lemma_make_bb_disjoint(p, m);
    lemma_make_kings(p, m);
    lemma_make_color_ok(p, m);
}

} // verus!
