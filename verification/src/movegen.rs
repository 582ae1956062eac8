//! Pieces, moves and the pseudo-legal move generator.
use vstd::prelude::*;
use crate::bitboard::Square;
use crate::position::{side_idx, Position};
use crate::bitboard::has;
use vstd::string::{StringExecFns, StringSliceAdditionalSpecFns};

verus! {

/// The six chess piece kinds, with stable indices 0..6.
#[derive(Copy, Clone, PartialEq, Eq, PartialOrd, Ord, Debug, Structural)]
pub enum Piece {
    Pawn,
    Knight,
    Bishop,
    Rook,
    Queen,
    King,
}

/// The index of a piece kind into per-piece tables.
pub open spec fn piece_idx(p: Piece) -> int {
    match p {
        Piece::Pawn => 0,
        Piece::Knight => 1,
        Piece::Bishop => 2,
        Piece::Rook => 3,
        Piece::Queen => 4,
        Piece::King => 5,
    }
}

/// The centipawn value of a piece kind, used by the evaluation.
pub open spec fn piece_value(p: Piece) -> int {
    match p {
        Piece::Pawn => 100,
        Piece::Knight => 300,
        Piece::Bishop => 320,
        Piece::Rook => 500,
        Piece::Queen => 1000,
        Piece::King => 10000,
    }
}

/// The piece value used for exchange evaluation and capture ordering.
pub open spec fn see_piece_value(p: Piece) -> int {
    match p {
        Piece::Pawn => 120,
        Piece::Knight => 300,
        Piece::Bishop => 300,
        Piece::Rook => 550,
        Piece::Queen => 1000,
        Piece::King => 10000,
    }
}

impl Piece {
    pub fn index(self) -> (r: usize)
        ensures
            r == piece_idx(self),
            r < 6,
    {
        match self {
            Piece::Pawn => 0,
            Piece::Knight => 1,
            Piece::Bishop => 2,
            Piece::Rook => 3,
            Piece::Queen => 4,
            Piece::King => 5,
        }
    }

    pub fn value(self) -> (r: i16)
        ensures
            r == piece_value(self),
    {
        match self {
            Piece::Pawn => 100,
            Piece::Knight => 300,
            Piece::Bishop => 320,
            Piece::Rook => 500,
            Piece::Queen => 1000,
            Piece::King => 10000,
        }
    }

    pub fn see_value(self) -> (r: i16)
        ensures
            r == see_piece_value(self),
    {
        match self {
            Piece::Pawn => 120,
            Piece::Knight => 300,
            Piece::Bishop => 300,
            Piece::Rook => 550,
            Piece::Queen => 1000,
            Piece::King => 10000,
        }
    }
}

/// A move: source and target square, the moving piece, what it captures and
/// what a pawn promotes to.  A move does not know whose turn it is; that is
/// read from the position it is applied to.
#[derive(Copy, Clone, PartialEq, Eq, Debug, Structural)]
pub struct Move {
    pub from: Square,
    pub to: Square,
    pub piece: Piece,
    pub captured: Option<Piece>,
    pub promoted: Option<Piece>,
    pub en_passant: bool,
}

impl Move {
    /// Whether the move neither captures nor promotes.
    pub fn is_quiet(self) -> (r: bool)
        ensures
            r == (self.captured is None && self.promoted is None),
    {
        self.captured.is_none() && self.promoted.is_none()
    }

    /// Whether the move has the shape of kingside castling.
    pub fn is_kingside_castle(self) -> (r: bool)
        ensures
            r == (self.to == self.from + 2),
    {
        self.to == self.from.wrapping_add(2) && self.from <= 253
    }

    /// Whether the move has the shape of queenside castling.
    pub fn is_queenside_castle(self) -> (r: bool)
        ensures
            r == (self.from == self.to + 2),
    {
        self.from == self.to.wrapping_add(2) && self.to <= 253
    }
}


/// Generates pseudo-legal moves for one position.
pub struct MoveGenerator<'p> {
    pub position: &'p Position,
}

impl<'p> MoveGenerator<'p> {
    /// A generator reading from `pos`.
    pub fn from(pos: &'p Position) -> (r: MoveGenerator<'p>)
        ensures
            r.position == pos,
    {
        MoveGenerator { position: pos }
    }
}


/// Every move in `s` from index `lo` on stays on the board.
pub open spec fn moves_in_range(s: Seq<Move>, lo: int) -> bool {
    forall|k: int| lo <= k < s.len() ==> (#[trigger] s[k]).from < 64 && s[k].to < 64
}

/// The attack set a non-pawn piece generates moves along.
pub open spec fn attack_of(p: Position, piece: Piece, from: int) -> u64 {
    match piece {
        Piece::Pawn => 0u64,
        Piece::Knight => crate::attacks::knight_att(from),
        Piece::Bishop => crate::attacks::bishop_att(from, p.all_pieces),
        Piece::Rook => crate::attacks::rook_att(from, p.all_pieces),
        Piece::Queen => crate::attacks::bishop_att(from, p.all_pieces) | crate::attacks::rook_att(
            from,
            p.all_pieces,
        ),
        Piece::King => crate::attacks::king_att(from),
    }
}

/// A plain (non-pawn, non-castling) move of `piece` from `from` to `to`,
/// capturing whatever sits on `to`.
pub open spec fn mk_simple_move(p: Position, piece: Piece, from: u64, to: u64) -> Move {
    Move {
        from: from as Square,
        to: to as Square,
        piece: piece,
        captured: crate::position::find_piece_spec(p, to as int),
        promoted: None,
        en_passant: false,
    }
}

/// The moves of `piece` standing on `from` towards the squares `tos`,
/// in board order.
pub open spec fn dest_moves(p: Position, piece: Piece, from: u64, tos: Seq<u64>, j: int) -> Seq<
    Move,
>
    decreases tos.len() - j,
{
    if j < 0 || j >= tos.len() {
        Seq::empty()
    } else {
        seq![mk_simple_move(p, piece, from, tos[j])] + dest_moves(p, piece, from, tos, j + 1)
    }
}

/// The moves of all `piece`s standing on the squares `froms` towards the
/// target set `targets`.
pub open spec fn simple_moves(p: Position, piece: Piece, froms: Seq<u64>, targets: u64, k: int) -> Seq<
    Move,
>
    decreases froms.len() - k,
{
    if k < 0 || k >= froms.len() {
        Seq::empty()
    } else {
        dest_moves(
            p,
            piece,
            froms[k],
            crate::bitboard::sq_list(targets & attack_of(p, piece, froms[k] as int)),
            0,
        ) + simple_moves(p, piece, froms, targets, k + 1)
    }
}

/// All pseudo-legal moves of one non-pawn piece kind towards `targets`:
/// each piece of the side to move, each reachable target square, in board
/// order.
pub open spec fn piece_moves_spec(p: Position, piece: Piece, targets: u64) -> Seq<Move> {
    let us = p.pieces[side_idx(p.white_to_move)];
    simple_moves(p, piece, crate::bitboard::sq_list(p.bb[piece_idx(piece)] & us), targets, 0)
}

impl MoveGenerator<'_> {
    /// Push the moves of `piece` (knight, bishop, rook, queen or plain king
    /// steps) towards `targets` onto `moves`.
    fn gen_piece_moves(
        &self,
        tables: &crate::attacks::AttackTables,
        piece: Piece,
        targets: u64,
        moves: &mut Vec<Move>,
    )
        requires
            tables.wf(),
            !(piece is Pawn),
        ensures
            final (moves)@ == old(moves)@ + piece_moves_spec(*self.position, piece, targets),
            (moves_in_range(old(moves)@, 0) ==> moves_in_range(final (moves)@, 0)),
    {
        let p = self.position;
        let us = p.us(p.white_to_move);
        let pi = piece.index();
        let froms = crate::bitboard::squares(p.bb[pi] & us);
        let ghost gfroms = crate::bitboard::sq_list(p.bb[pi as int] & us);
        let ghost orig = moves@;
        proof {
            crate::bitboard::lemma_sq_list_members(p.bb[pi as int] & us);
        }
        let mut k: usize = 0;
        while k < froms.len()
            invariant
                tables.wf(),
                !(piece is Pawn),
                us == p.pieces[side_idx(p.white_to_move)],
                pi == piece_idx(piece),
                froms@.map_values(|s: Square| s as u64) == gfroms,
                gfroms == crate::bitboard::sq_list(p.bb[pi as int] & us),
                forall|j: int| 0 <= j < froms@.len() ==> froms@[j] < 64,
                k <= froms@.len(),
                (moves_in_range(orig, 0) ==> moves_in_range(moves@, 0)),
                moves@ + simple_moves(*p, piece, gfroms, targets, k as int) == orig + simple_moves(
                    *p,
                    piece,
                    gfroms,
                    targets,
                    0,
                ),
            decreases froms@.len() - k,
        {
            let from = froms[k];
            let att = match piece {
                Piece::Knight => crate::attacks::knight_attacks(from),
                Piece::Bishop => crate::attacks::get_bishop_attacks_from(
                    tables,
                    from,
                    p.all_pieces,
                ),
                Piece::Rook => crate::attacks::get_rook_attacks_from(tables, from, p.all_pieces),
                Piece::Queen => crate::attacks::get_bishop_attacks_from(tables, from, p.all_pieces)
                    | crate::attacks::get_rook_attacks_from(tables, from, p.all_pieces),
                _ => crate::attacks::king_attacks(from),
            };
            proof {
                assert(att == attack_of(*p, piece, from as int));
            }
            let tos = crate::bitboard::squares(targets & att);
            let ghost gtos = crate::bitboard::sq_list(targets & att);
            let ghost before = moves@;
            proof {
                crate::bitboard::lemma_sq_list_members(targets & att);
            }
            let mut j: usize = 0;
            while j < tos.len()
                invariant
                    tos@.map_values(|s: Square| s as u64) == gtos,
                    forall|t: int| 0 <= t < tos@.len() ==> tos@[t] < 64,
                    j <= tos@.len(),
                    from < 64,
                    (moves_in_range(orig, 0) ==> moves_in_range(moves@, 0)),
                    moves@ + dest_moves(*p, piece, from as u64, gtos, j as int) == before
                        + dest_moves(*p, piece, from as u64, gtos, 0),
                decreases tos@.len() - j,
            {
                let to = tos[j];
                let captured = p.find_piece(to);
                moves.push(
                    Move {
                        from,
                        to,
                        piece,
                        captured,
                        promoted: None,
                        en_passant: false,
                    },
                );
                j += 1;
            }
            k += 1;
        }
    }

    /// Push the pseudo-legal knight moves towards `targets` onto `moves`.
    pub fn knight(
        &self,
        tables: &crate::attacks::AttackTables,
        targets: u64,
        moves: &mut Vec<Move>,
    )
        requires
            tables.wf(),
        ensures
            final (moves)@ == old(moves)@ + piece_moves_spec(*self.position, Piece::Knight, targets),
            (moves_in_range(old(moves)@, 0) ==> moves_in_range(final (moves)@, 0)),
    {
        self.gen_piece_moves(tables, Piece::Knight, targets, moves)
    }

    /// Push the pseudo-legal bishop moves towards `targets` onto `moves`.
    pub fn bishop(
        &self,
        tables: &crate::attacks::AttackTables,
        targets: u64,
        moves: &mut Vec<Move>,
    )
        requires
            tables.wf(),
        ensures
            final (moves)@ == old(moves)@ + piece_moves_spec(*self.position, Piece::Bishop, targets),
            (moves_in_range(old(moves)@, 0) ==> moves_in_range(final (moves)@, 0)),
    {
        self.gen_piece_moves(tables, Piece::Bishop, targets, moves)
    }

    /// Push the pseudo-legal rook moves towards `targets` onto `moves`.
    pub fn rook(&self, tables: &crate::attacks::AttackTables, targets: u64, moves: &mut Vec<Move>)
        requires
            tables.wf(),
        ensures
            final (moves)@ == old(moves)@ + piece_moves_spec(*self.position, Piece::Rook, targets),
            (moves_in_range(old(moves)@, 0) ==> moves_in_range(final (moves)@, 0)),
    {
        self.gen_piece_moves(tables, Piece::Rook, targets, moves)
    }

    /// Push the pseudo-legal queen moves towards `targets` onto `moves`.
    pub fn queen(&self, tables: &crate::attacks::AttackTables, targets: u64, moves: &mut Vec<Move>)
        requires
            tables.wf(),
        ensures
            final (moves)@ == old(moves)@ + piece_moves_spec(*self.position, Piece::Queen, targets),
            (moves_in_range(old(moves)@, 0) ==> moves_in_range(final (moves)@, 0)),
    {
        self.gen_piece_moves(tables, Piece::Queen, targets, moves)
    }

    /// The knight attack set from a square.
    pub fn knight_from(&self, from: Square) -> (r: u64)
        requires
            from < 64,
        ensures
            r == crate::attacks::knight_att(from as int),
    {
        crate::attacks::knight_attacks(from)
    }

    /// The king attack set from a square.
    pub fn king_from(&self, from: Square) -> (r: u64)
        requires
            from < 64,
        ensures
            r == crate::attacks::king_att(from as int),
    {
        crate::attacks::king_attacks(from)
    }
}


/// The rank where the side's pawns promote (as a rank index).
pub open spec fn promoting_rank(white: bool) -> int {
    if white {
        7
    } else {
        0
    }
}

/// The four promotions of one pawn move, queen first.
pub open spec fn promo_moves(from: u64, to: u64, captured: Option<Piece>) -> Seq<Move> {
    seq![
        Move {
            from: from as Square,
            to: to as Square,
            piece: Piece::Pawn,
            captured: captured,
            promoted: Some(Piece::Queen),
            en_passant: false,
        },
        Move {
            from: from as Square,
            to: to as Square,
            piece: Piece::Pawn,
            captured: captured,
            promoted: Some(Piece::Knight),
            en_passant: false,
        },
        Move {
            from: from as Square,
            to: to as Square,
            piece: Piece::Pawn,
            captured: captured,
            promoted: Some(Piece::Rook),
            en_passant: false,
        },
        Move {
            from: from as Square,
            to: to as Square,
            piece: Piece::Pawn,
            captured: captured,
            promoted: Some(Piece::Bishop),
            en_passant: false,
        },
    ]
}

/// One plain pawn move.
pub open spec fn mk_pawn_move(from: int, to: u64, captured: Option<Piece>) -> Move {
    Move {
        from: from as Square,
        to: to as Square,
        piece: Piece::Pawn,
        captured: captured,
        promoted: None,
        en_passant: false,
    }
}

/// The single-push pawn moves towards the squares `tos`, promotions unfolded.
pub open spec fn push_moves(w: bool, tos: Seq<u64>, j: int) -> Seq<Move>
    decreases tos.len() - j,
{
    if j < 0 || j >= tos.len() {
        Seq::empty()
    } else {
        let to = tos[j];
        let from = if w {
            to - 8
        } else {
            to + 8
        };
        (if crate::bitboard::rank_of(to as int) == promoting_rank(w) {
            promo_moves(from as u64, to, None)
        } else {
            seq![mk_pawn_move(from as int, to, None)]
        }) + push_moves(w, tos, j + 1)
    }
}

/// The double-push pawn moves towards the squares `tos`.
pub open spec fn double_moves(w: bool, tos: Seq<u64>, j: int) -> Seq<Move>
    decreases tos.len() - j,
{
    if j < 0 || j >= tos.len() {
        Seq::empty()
    } else {
        let to = tos[j];
        let from = if w {
            to - 16
        } else {
            to + 16
        };
        seq![mk_pawn_move(from as int, to, None)] + double_moves(w, tos, j + 1)
    }
}

/// The en-passant captures by the pawns on the squares `froms`.
pub open spec fn ep_moves(w: bool, ep_file: u8, froms: Seq<u64>, j: int) -> Seq<Move>
    decreases froms.len() - j,
{
    if j < 0 || j >= froms.len() {
        Seq::empty()
    } else {
        let from = froms[j];
        let fwd_rank = crate::bitboard::rank_of(if w {
            from + 8
        } else {
            from - 8
        });
        seq![
            Move {
                from: from as Square,
                to: (fwd_rank * 8 + ep_file) as Square,
                piece: Piece::Pawn,
                captured: Some(Piece::Pawn),
                promoted: None,
                en_passant: true,
            },
        ] + ep_moves(w, ep_file, froms, j + 1)
    }
}

/// The ordinary pawn captures towards the squares `tos`; `towards_a` tells
/// which diagonal the capture came along (towards the a-file or the h-file).
pub open spec fn capture_moves(p: Position, w: bool, towards_a: bool, tos: Seq<u64>, j: int) -> Seq<
    Move,
>
    decreases tos.len() - j,
{
    if j < 0 || j >= tos.len() {
        Seq::empty()
    } else {
        let to = tos[j];
        let back = if w {
            to - 8
        } else {
            to + 8
        };
        let from = if towards_a {
            back + 1
        } else {
            back - 1
        };
        let captured = crate::position::find_piece_spec(p, to as int);
        (if crate::bitboard::rank_of(to as int) == promoting_rank(w) {
            promo_moves(from as u64, to, captured)
        } else {
            seq![mk_pawn_move(from as int, to, captured)]
        }) + capture_moves(p, w, towards_a, tos, j + 1)
    }
}

/// The square a pawn lands on when capturing en passant.
pub open spec fn ep_square_spec(p: Position) -> int {
    if p.white_to_move {
        5 * 8 + p.details.en_passant
    } else {
        2 * 8 + p.details.en_passant
    }
}

/// The single-push target squares of the side to move.
pub open spec fn single_step_targets_spec(p: Position, targets: u64) -> u64 {
    let us = p.pieces[side_idx(p.white_to_move)];
    let pawns = p.bb[0] & us;
    crate::bitboard::shift_forward(p.white_to_move, pawns, 1) & !p.all_pieces & targets
}

/// The double-push target squares of the side to move.
pub open spec fn double_step_targets_spec(p: Position, targets: u64) -> u64 {
    let w = p.white_to_move;
    let us = p.pieces[side_idx(w)];
    let pawns = p.bb[0] & us;
    let rank3 = if w {
        crate::bitboard::RANK_3
    } else {
        crate::bitboard::RANK_6
    };
    crate::bitboard::shift_forward(
        w,
        crate::bitboard::shift_forward(w, pawns, 1) & !p.all_pieces & rank3,
        1,
    ) & !p.all_pieces & targets
}

/// The capture target squares of the side to move, towards the a-file or not.
pub open spec fn capture_targets_spec(p: Position, targets: u64, towards_a: bool) -> u64 {
    let w = p.white_to_move;
    let us = p.pieces[side_idx(w)];
    let them = p.pieces[side_idx(!w)];
    let pawns = p.bb[0] & us;
    let stepped = crate::bitboard::shift_forward(w, pawns, 1);
    (if towards_a {
        crate::bitboard::shift_left(stepped, 1)
    } else {
        crate::bitboard::shift_right(stepped, 1)
    }) & them & targets
}

/// The pawns of the side to move that may capture en passant: own pawns on
/// the capturing rank beside the en-passant file.
pub open spec fn ep_capturers_spec(p: Position) -> u64 {
    let w = p.white_to_move;
    let us = p.pieces[side_idx(w)];
    let file = crate::attacks::file_bb(p.details.en_passant as int);
    let adjacent = crate::bitboard::shift_left(file, 1) | crate::bitboard::shift_right(file, 1);
    let rank = if w {
        crate::bitboard::RANK_5
    } else {
        crate::bitboard::RANK_4
    };
    us & p.bb[0] & adjacent & rank
}

/// The en-passant section of the pawn move list: empty when no en-passant
/// capture is available or the landing square is not a target.
pub open spec fn ep_section_spec(p: Position, targets: u64) -> Seq<Move> {
    if p.details.en_passant != 255 && has(targets, ep_square_spec(p)) {
        ep_moves(
            p.white_to_move,
            p.details.en_passant,
            crate::bitboard::sq_list(ep_capturers_spec(p)),
            0,
        )
    } else {
        Seq::empty()
    }
}

/// All pseudo-legal pawn moves towards `targets`: single pushes, double
/// pushes, en-passant captures, then captures towards each wing.
pub open spec fn pawn_moves_spec(p: Position, targets: u64) -> Seq<Move> {
    let w = p.white_to_move;
    push_moves(w, crate::bitboard::sq_list(single_step_targets_spec(p, targets)), 0) + double_moves(
        w,
        crate::bitboard::sq_list(double_step_targets_spec(p, targets)),
        0,
    ) + ep_section_spec(p, targets) + capture_moves(
        p,
        w,
        true,
        crate::bitboard::sq_list(capture_targets_spec(p, targets, true)),
        0,
    ) + capture_moves(
        p,
        w,
        false,
        crate::bitboard::sq_list(capture_targets_spec(p, targets, false)),
        0,
    )
}

/// Membership in a shifted pawn bitboard pins the target's range so the
/// source square can be recovered.
proof fn lemma_pawn_target_range(x: u64, t: u64)
    by (bit_vector)
    requires
        t < 64,
    ensures
        ((x << 8u64) & (1u64 << t) != 0) ==> t >= 8,
        ((x >> 8u64) & (1u64 << t) != 0) ==> t < 56,
        ((x & 0x0000_0000_00FF_0000) & (1u64 << t) != 0) ==> 16 <= t < 24,
        ((x & 0x0000_FF00_0000_0000) & (1u64 << t) != 0) ==> 40 <= t < 48,
        ((x << 8u64) & (1u64 << t) != 0) ==> (x & (1u64 << ((t - 8) as u64))) != 0,
        ((x >> 8u64) & (1u64 << t) != 0) ==> (x & (1u64 << ((t + 8) as u64))) != 0,
        ((((x & !crate::bitboard::low_files(1)) >> 1u64) & (1u64 << t)) != 0) ==> t % 8 <= 6 && ((x
            & (1u64 << ((t + 1) as u64))) != 0),
        ((((x & crate::bitboard::low_files(7)) << 1u64) & (1u64 << t)) != 0) ==> t % 8 >= 1 && ((x
            & (1u64 << ((t - 1) as u64))) != 0),
        ((x & 0x000000FF_00000000) & (1u64 << t) != 0) ==> 32 <= t < 40,
        ((x & 0x00000000_FF000000) & (1u64 << t) != 0) ==> 24 <= t < 32,
{
}

impl MoveGenerator<'_> {
    /// Push the pseudo-legal pawn moves towards `targets` onto `moves`:
    /// pushes, double pushes, en-passant and diagonal captures, with each
    /// promotion emitted four ways (queen, knight, rook, bishop).
    #[verifier::rlimit(100)]
    pub fn pawn(&self, targets: u64, moves: &mut Vec<Move>)
        requires
            self.position.details.en_passant == 255 || self.position.details.en_passant < 8,
        ensures
            final (moves)@ == old(moves)@ + pawn_moves_spec(*self.position, targets),
            (moves_in_range(old(moves)@, 0) ==> moves_in_range(final (moves)@, 0)),
    {
        let p = self.position;
        let w = p.white_to_move;
        let us = p.us(w);
        let them = p.them(w);
        let pawns = p.pawns() & us;
        let stepped = crate::bitboard::forward(w, pawns, 1);
        let rank3 = if w {
            crate::bitboard::RANK_3
        } else {
            crate::bitboard::RANK_6
        };
        let promoting: u8 = if w {
            7
        } else {
            0
        };

        let single_step_targets = stepped & !p.all_pieces & targets;
        let double_step_targets = crate::bitboard::forward(
            w,
            stepped & !p.all_pieces & rank3,
            1,
        ) & !p.all_pieces & targets;
        let captures_left = crate::bitboard::left(stepped, 1) & them & targets;
        let captures_right = crate::bitboard::right(stepped, 1) & them & targets;

        let ghost orig = moves@;

        // single pushes
        let tos = crate::bitboard::squares(single_step_targets);
        let ghost gtos = crate::bitboard::sq_list(single_step_targets);
        proof {
            crate::bitboard::lemma_sq_list_members(single_step_targets);
        }
        let mut j: usize = 0;
        while j < tos.len()
            invariant
                tos@.map_values(|s: Square| s as u64) == gtos,
                gtos == crate::bitboard::sq_list(single_step_targets_spec(*p, targets)),
                forall|t: int|
                    0 <= t < gtos.len() ==> gtos[t] < 64 && has(single_step_targets, gtos[t] as int),
                single_step_targets == single_step_targets_spec(*p, targets),
                w == p.white_to_move,
                promoting == promoting_rank(w),
                j <= tos@.len(),
                (moves_in_range(orig, 0) ==> moves_in_range(moves@, 0)),
                moves@ + push_moves(w, gtos, j as int) == orig + push_moves(w, gtos, 0),
            decreases tos@.len() - j,
        {
            let to = tos[j];
            proof {
                lemma_pawn_target_range(
                    if w {
                        (p.bb[0] & p.pieces[side_idx(w)])
                    } else {
                        (p.bb[0] & p.pieces[side_idx(w)])
                    },
                    to as u64,
                );
                if w {
                    assert(((p.bb[0] & p.pieces[side_idx(w)]) << 8u64) & (1u64 << (to as u64))
                        != 0) by {
                        crate::bitboard::lemma_bit_index(
                            crate::bitboard::shift_forward(w, p.bb[0] & p.pieces[side_idx(w)], 1)
                                & !p.all_pieces,
                            targets,
                            to as u64,
                        );
                        crate::bitboard::lemma_bit_index(
                            crate::bitboard::shift_forward(w, p.bb[0] & p.pieces[side_idx(w)], 1),
                            !p.all_pieces,
                            to as u64,
                        );
                    }
                } else {
                    assert(((p.bb[0] & p.pieces[side_idx(w)]) >> 8u64) & (1u64 << (to as u64))
                        != 0) by {
                        crate::bitboard::lemma_bit_index(
                            crate::bitboard::shift_forward(w, p.bb[0] & p.pieces[side_idx(w)], 1)
                                & !p.all_pieces,
                            targets,
                            to as u64,
                        );
                        crate::bitboard::lemma_bit_index(
                            crate::bitboard::shift_forward(w, p.bb[0] & p.pieces[side_idx(w)], 1),
                            !p.all_pieces,
                            to as u64,
                        );
                    }
                }
            }
            let from: u8 = if w {
                to - 8
            } else {
                to + 8
            };
            if to / 8 == promoting {
                moves.push(
                    Move {
                        from,
                        to,
                        piece: Piece::Pawn,
                        captured: None,
                        promoted: Some(Piece::Queen),
                        en_passant: false,
                    },
                );
                moves.push(
                    Move {
                        from,
                        to,
                        piece: Piece::Pawn,
                        captured: None,
                        promoted: Some(Piece::Knight),
                        en_passant: false,
                    },
                );
                moves.push(
                    Move {
                        from,
                        to,
                        piece: Piece::Pawn,
                        captured: None,
                        promoted: Some(Piece::Rook),
                        en_passant: false,
                    },
                );
                moves.push(
                    Move {
                        from,
                        to,
                        piece: Piece::Pawn,
                        captured: None,
                        promoted: Some(Piece::Bishop),
                        en_passant: false,
                    },
                );
            } else {
                moves.push(
                    Move {
                        from,
                        to,
                        piece: Piece::Pawn,
                        captured: None,
                        promoted: None,
                        en_passant: false,
                    },
                );
            }
            j += 1;
        }

        // double pushes
        let dtos = crate::bitboard::squares(double_step_targets);
        let ghost gdtos = crate::bitboard::sq_list(double_step_targets);
        proof {
            crate::bitboard::lemma_sq_list_members(double_step_targets);
        }
        let ghost after_push = moves@;
        let mut j2: usize = 0;
        while j2 < dtos.len()
            invariant
                dtos@.map_values(|s: Square| s as u64) == gdtos,
                gdtos == crate::bitboard::sq_list(double_step_targets_spec(*p, targets)),
                forall|t: int|
                    0 <= t < gdtos.len() ==> gdtos[t] < 64 && has(
                        double_step_targets,
                        gdtos[t] as int,
                    ),
                double_step_targets == double_step_targets_spec(*p, targets),
                w == p.white_to_move,
                j2 <= dtos@.len(),
                (moves_in_range(orig, 0) ==> moves_in_range(moves@, 0)),
                moves@ + double_moves(w, gdtos, j2 as int) == after_push + double_moves(
                    w,
                    gdtos,
                    0,
                ),
            decreases dtos@.len() - j2,
        {
            let to = dtos[j2];
            proof {
                let inner = crate::bitboard::shift_forward(
                    w,
                    p.bb[0] & p.pieces[side_idx(w)],
                    1,
                ) & !p.all_pieces & (if w {
                    crate::bitboard::RANK_3
                } else {
                    crate::bitboard::RANK_6
                });
                crate::bitboard::lemma_bit_index(
                    crate::bitboard::shift_forward(w, inner, 1) & !p.all_pieces,
                    targets,
                    to as u64,
                );
                crate::bitboard::lemma_bit_index(
                    crate::bitboard::shift_forward(w, inner, 1),
                    !p.all_pieces,
                    to as u64,
                );
                lemma_pawn_target_range(inner, to as u64);
                if w {
                    assert(16 <= (to - 8) < 24) by {
                        lemma_pawn_target_range(
                            crate::bitboard::shift_forward(w, p.bb[0] & p.pieces[side_idx(w)], 1)
                                & !p.all_pieces,
                            (to - 8) as u64,
                        );
                    }
                } else {
                    assert(40 <= (to + 8) < 48) by {
                        lemma_pawn_target_range(
                            crate::bitboard::shift_forward(w, p.bb[0] & p.pieces[side_idx(w)], 1)
                                & !p.all_pieces,
                            (to + 8) as u64,
                        );
                    }
                }
            }
            let from: u8 = if w {
                to - 16
            } else {
                to + 16
            };
            moves.push(
                Move {
                    from,
                    to,
                    piece: Piece::Pawn,
                    captured: None,
                    promoted: None,
                    en_passant: false,
                },
            );
            j2 += 1;
        }

        // en passant
        let ghost after_double = moves@;
        if p.details.en_passant != 255 {
            let ep_square: u8 = if w {
                crate::bitboard::file_rank(p.details.en_passant, 5)
            } else {
                crate::bitboard::file_rank(p.details.en_passant, 2)
            };
            let en_passant_capturers_rank: u64 = if w {
                crate::bitboard::RANK_5
            } else {
                crate::bitboard::RANK_4
            };
            let file = crate::bitboard::right(crate::bitboard::FILE_A, p.details.en_passant);
            proof {
                crate::attacks::lemma_file_bb_shift(p.details.en_passant);
            }
            let adjacent = crate::bitboard::left(file, 1) | crate::bitboard::right(file, 1);
            let capturers = us & p.pawns() & adjacent & en_passant_capturers_rank;
            proof {
                assert(capturers == ep_capturers_spec(*p));
            }
            if crate::bitboard::contains(targets, ep_square) {
                let froms = crate::bitboard::squares(capturers);
                let ghost gfroms = crate::bitboard::sq_list(capturers);
                proof {
                    crate::bitboard::lemma_sq_list_members(capturers);
                }
                let mut j3: usize = 0;
                while j3 < froms.len()
                    invariant
                        froms@.map_values(|s: Square| s as u64) == gfroms,
                        gfroms == crate::bitboard::sq_list(ep_capturers_spec(*p)),
                        forall|t: int|
                            0 <= t < gfroms.len() ==> gfroms[t] < 64 && has(
                                capturers,
                                gfroms[t] as int,
                            ),
                        capturers == ep_capturers_spec(*p),
                        w == p.white_to_move,
                        p.details.en_passant < 8,
                        j3 <= froms@.len(),
                        (moves_in_range(orig, 0) ==> moves_in_range(moves@, 0)),
                        moves@ + ep_moves(w, p.details.en_passant, gfroms, j3 as int)
                            == after_double + ep_moves(w, p.details.en_passant, gfroms, 0),
                    decreases froms@.len() - j3,
                {
                    let from = froms[j3];
                    proof {
                        lemma_pawn_target_range(
                            p.pieces[side_idx(w)] & p.bb[0] & (crate::bitboard::shift_left(
                                crate::attacks::file_bb(p.details.en_passant as int),
                                1,
                            ) | crate::bitboard::shift_right(
                                crate::attacks::file_bb(p.details.en_passant as int),
                                1,
                            )),
                            from as u64,
                        );
                    }
                    let fwd: u8 = if w {
                        from + 8
                    } else {
                        from - 8
                    };
                    let to = crate::bitboard::file_rank(
                        p.details.en_passant,
                        crate::bitboard::rank(fwd),
                    );
                    moves.push(
                        Move {
                            from,
                            to,
                            piece: Piece::Pawn,
                            captured: Some(Piece::Pawn),
                            promoted: None,
                            en_passant: true,
                        },
                    );
                    j3 += 1;
                }
            }
        }
        proof {
            assert(moves@ == after_double + ep_section_spec(*p, targets));
        }

        // captures towards the a-file
        let ghost after_ep = moves@;
        let ltos = crate::bitboard::squares(captures_left);
        let ghost gltos = crate::bitboard::sq_list(captures_left);
        proof {
            crate::bitboard::lemma_sq_list_members(captures_left);
        }
        let mut j4: usize = 0;
        while j4 < ltos.len()
            invariant
                ltos@.map_values(|s: Square| s as u64) == gltos,
                gltos == crate::bitboard::sq_list(capture_targets_spec(*p, targets, true)),
                forall|t: int|
                    0 <= t < gltos.len() ==> gltos[t] < 64 && has(captures_left, gltos[t] as int),
                captures_left == capture_targets_spec(*p, targets, true),
                w == p.white_to_move,
                promoting == promoting_rank(w),
                j4 <= ltos@.len(),
                (moves_in_range(orig, 0) ==> moves_in_range(moves@, 0)),
                moves@ + capture_moves(*p, w, true, gltos, j4 as int) == after_ep + capture_moves(
                    *p,
                    w,
                    true,
                    gltos,
                    0,
                ),
            decreases ltos@.len() - j4,
        {
            let to = ltos[j4];
            proof {
                let stepped_s = crate::bitboard::shift_forward(
                    w,
                    p.bb[0] & p.pieces[side_idx(w)],
                    1,
                );
                crate::bitboard::lemma_bit_index(
                    crate::bitboard::shift_left(stepped_s, 1) & p.pieces[side_idx(!w)],
                    targets,
                    to as u64,
                );
                crate::bitboard::lemma_bit_index(
                    crate::bitboard::shift_left(stepped_s, 1),
                    p.pieces[side_idx(!w)],
                    to as u64,
                );
                lemma_pawn_target_range(stepped_s, to as u64);
                lemma_pawn_target_range(
                    p.bb[0] & p.pieces[side_idx(w)],
                    ((to + 1) as u64),
                );
            }
            let back: u8 = if w {
                to - 8
            } else {
                to + 8
            };
            let from: u8 = back + 1;
            let captured = p.find_piece(to);
            if to / 8 == promoting {
                moves.push(
                    Move {
                        from,
                        to,
                        piece: Piece::Pawn,
                        captured,
                        promoted: Some(Piece::Queen),
                        en_passant: false,
                    },
                );
                moves.push(
                    Move {
                        from,
                        to,
                        piece: Piece::Pawn,
                        captured,
                        promoted: Some(Piece::Knight),
                        en_passant: false,
                    },
                );
                moves.push(
                    Move {
                        from,
                        to,
                        piece: Piece::Pawn,
                        captured,
                        promoted: Some(Piece::Rook),
                        en_passant: false,
                    },
                );
                moves.push(
                    Move {
                        from,
                        to,
                        piece: Piece::Pawn,
                        captured,
                        promoted: Some(Piece::Bishop),
                        en_passant: false,
                    },
                );
            } else {
                moves.push(
                    Move {
                        from,
                        to,
                        piece: Piece::Pawn,
                        captured,
                        promoted: None,
                        en_passant: false,
                    },
                );
            }
            j4 += 1;
        }

        // captures towards the h-file
        let ghost after_left = moves@;
        let rtos = crate::bitboard::squares(captures_right);
        let ghost grtos = crate::bitboard::sq_list(captures_right);
        proof {
            crate::bitboard::lemma_sq_list_members(captures_right);
        }
        let mut j5: usize = 0;
        while j5 < rtos.len()
            invariant
                rtos@.map_values(|s: Square| s as u64) == grtos,
                grtos == crate::bitboard::sq_list(capture_targets_spec(*p, targets, false)),
                forall|t: int|
                    0 <= t < grtos.len() ==> grtos[t] < 64 && has(captures_right, grtos[t] as int),
                captures_right == capture_targets_spec(*p, targets, false),
                w == p.white_to_move,
                promoting == promoting_rank(w),
                j5 <= rtos@.len(),
                (moves_in_range(orig, 0) ==> moves_in_range(moves@, 0)),
                moves@ + capture_moves(*p, w, false, grtos, j5 as int) == after_left
                    + capture_moves(*p, w, false, grtos, 0),
            decreases rtos@.len() - j5,
        {
            let to = rtos[j5];
            proof {
                let stepped_s = crate::bitboard::shift_forward(
                    w,
                    p.bb[0] & p.pieces[side_idx(w)],
                    1,
                );
                crate::bitboard::lemma_bit_index(
                    crate::bitboard::shift_right(stepped_s, 1) & p.pieces[side_idx(!w)],
                    targets,
                    to as u64,
                );
                crate::bitboard::lemma_bit_index(
                    crate::bitboard::shift_right(stepped_s, 1),
                    p.pieces[side_idx(!w)],
                    to as u64,
                );
                lemma_pawn_target_range(stepped_s, to as u64);
                lemma_pawn_target_range(
                    p.bb[0] & p.pieces[side_idx(w)],
                    ((to - 1) as u64),
                );
            }
            let back: u8 = if w {
                to - 8
            } else {
                to + 8
            };
            let from: u8 = back - 1;
            let captured = p.find_piece(to);
            if to / 8 == promoting {
                moves.push(
                    Move {
                        from,
                        to,
                        piece: Piece::Pawn,
                        captured,
                        promoted: Some(Piece::Queen),
                        en_passant: false,
                    },
                );
                moves.push(
                    Move {
                        from,
                        to,
                        piece: Piece::Pawn,
                        captured,
                        promoted: Some(Piece::Knight),
                        en_passant: false,
                    },
                );
                moves.push(
                    Move {
                        from,
                        to,
                        piece: Piece::Pawn,
                        captured,
                        promoted: Some(Piece::Rook),
                        en_passant: false,
                    },
                );
                moves.push(
                    Move {
                        from,
                        to,
                        piece: Piece::Pawn,
                        captured,
                        promoted: Some(Piece::Bishop),
                        en_passant: false,
                    },
                );
            } else {
                moves.push(
                    Move {
                        from,
                        to,
                        piece: Piece::Pawn,
                        captured,
                        promoted: None,
                        en_passant: false,
                    },
                );
            }
            j5 += 1;
        }
    }
}


/// Whether kingside castling is available to the side to move: the right is
/// intact, the passage is empty and the rook still sits in its corner.
pub open spec fn castle_kside_ok(p: Position) -> bool {
    let us = p.pieces[side_idx(p.white_to_move)];
    if p.white_to_move {
        (p.details.castling & crate::position::CASTLE_WHITE_KSIDE) > 0 && (p.all_pieces
            & 0x0000_0000_0000_0060) == 0 && has(p.bb[3] & us, 7)
    } else {
        (p.details.castling & crate::position::CASTLE_BLACK_KSIDE) > 0 && (p.all_pieces
            & 0x6000_0000_0000_0000) == 0 && has(p.bb[3] & us, 63)
    }
}

/// Whether queenside castling is available to the side to move.
pub open spec fn castle_qside_ok(p: Position) -> bool {
    let us = p.pieces[side_idx(p.white_to_move)];
    if p.white_to_move {
        (p.details.castling & crate::position::CASTLE_WHITE_QSIDE) > 0 && (p.all_pieces
            & 0x0000_0000_0000_000E) == 0 && has(p.bb[3] & us, 0)
    } else {
        (p.details.castling & crate::position::CASTLE_BLACK_QSIDE) > 0 && (p.all_pieces
            & 0x0E00_0000_0000_0000) == 0 && has(p.bb[3] & us, 56)
    }
}

/// A castling move of the king from `from` two files towards `to`.
pub open spec fn mk_castle_move(from: int, to: int) -> Move {
    Move {
        from: from as Square,
        to: to as Square,
        piece: Piece::King,
        captured: None,
        promoted: None,
        en_passant: false,
    }
}

/// All pseudo-legal king moves towards `targets`: plain steps from the king
/// square, then kingside and queenside castling when available.
pub open spec fn king_moves_spec(p: Position, targets: u64) -> Seq<Move> {
    let ks = p.king_sq[side_idx(p.white_to_move)] as int;
    dest_moves(
        p,
        Piece::King,
        ks as u64,
        crate::bitboard::sq_list(targets & crate::attacks::king_att(ks)),
        0,
    ) + (if castle_kside_ok(p) && ks + 2 < 64 && has(targets, ks + 2) {
        seq![mk_castle_move(ks, ks + 2)]
    } else {
        Seq::empty()
    }) + (if castle_qside_ok(p) && ks >= 2 && has(targets, ks - 2) {
        seq![mk_castle_move(ks, ks - 2)]
    } else {
        Seq::empty()
    })
}

impl MoveGenerator<'_> {
    /// Push the pseudo-legal king moves towards `targets` onto `moves`,
    /// castling included.
    pub fn king(&self, tables: &crate::attacks::AttackTables, targets: u64, moves: &mut Vec<Move>)
        requires
            tables.wf(),
            self.position.king_sq[side_idx(self.position.white_to_move)] < 64,
        ensures
            final (moves)@ == old(moves)@ + king_moves_spec(*self.position, targets),
            (moves_in_range(old(moves)@, 0) ==> moves_in_range(final (moves)@, 0)),
    {
        let p = self.position;
        let w = p.white_to_move;
        let us = p.us(w);
        let castle_kside: bool;
        let castle_qside: bool;
        if w {
            castle_kside = (p.details.castling & crate::position::CASTLE_WHITE_KSIDE) > 0 && (
            p.all_pieces & 0x0000_0000_0000_0060) == 0 && crate::bitboard::contains(
                p.rooks() & us,
                7,
            );
            castle_qside = (p.details.castling & crate::position::CASTLE_WHITE_QSIDE) > 0 && (
            p.all_pieces & 0x0000_0000_0000_000E) == 0 && crate::bitboard::contains(
                p.rooks() & us,
                0,
            );
        } else {
            castle_kside = (p.details.castling & crate::position::CASTLE_BLACK_KSIDE) > 0 && (
            p.all_pieces & 0x6000_0000_0000_0000) == 0 && crate::bitboard::contains(
                p.rooks() & us,
                63,
            );
            castle_qside = (p.details.castling & crate::position::CASTLE_BLACK_QSIDE) > 0 && (
            p.all_pieces & 0x0E00_0000_0000_0000) == 0 && crate::bitboard::contains(
                p.rooks() & us,
                56,
            );
        }

        let from = p.king_sq(w);
        let att = crate::attacks::king_attacks(from);
        let tos = crate::bitboard::squares(targets & att);
        let ghost gtos = crate::bitboard::sq_list(targets & att);
        let ghost orig = moves@;
        proof {
            crate::bitboard::lemma_sq_list_members(targets & att);
        }
        let mut j: usize = 0;
        while j < tos.len()
            invariant
                tos@.map_values(|s: Square| s as u64) == gtos,
                forall|t: int| 0 <= t < tos@.len() ==> tos@[t] < 64,
                j <= tos@.len(),
                from < 64,
                (moves_in_range(orig, 0) ==> moves_in_range(moves@, 0)),
                moves@ + dest_moves(*p, Piece::King, from as u64, gtos, j as int) == orig
                    + dest_moves(*p, Piece::King, from as u64, gtos, 0),
            decreases tos@.len() - j,
        {
            let to = tos[j];
            let captured = p.find_piece(to);
            moves.push(
                Move {
                    from,
                    to,
                    piece: Piece::King,
                    captured,
                    promoted: None,
                    en_passant: false,
                },
            );
            j += 1;
        }

        if castle_kside && from <= 61 && crate::bitboard::contains(targets, from + 2) {
            moves.push(
                Move {
                    from,
                    to: from + 2,
                    piece: Piece::King,
                    captured: None,
                    promoted: None,
                    en_passant: false,
                },
            );
        }
        if castle_qside && from >= 2 && crate::bitboard::contains(targets, from - 2) {
            moves.push(
                Move {
                    from,
                    to: from - 2,
                    piece: Piece::King,
                    captured: None,
                    promoted: None,
                    en_passant: false,
                },
            );
        }
    }
}

/// The enemy pieces currently giving check to the side to move.
pub open spec fn checkers_spec(p: Position) -> u64 {
    let w = p.white_to_move;
    let k = p.king_sq[side_idx(w)] as int;
    let them = p.pieces[side_idx(!w)];
    let kb = crate::bitboard::bit(k);
    let fwd = crate::bitboard::shift_forward(w, kb, 1);
    (crate::attacks::bishop_att(k, p.all_pieces) & (p.bb[2] | p.bb[4]) & them) | (
    crate::attacks::rook_att(k, p.all_pieces) & (p.bb[3] | p.bb[4]) & them) | (
    crate::attacks::knight_att(k) & p.bb[1] & them) | ((crate::bitboard::shift_left(fwd, 1)
        | crate::bitboard::shift_right(fwd, 1)) & p.bb[0] & them)
}

impl MoveGenerator<'_> {
    /// The enemy pieces currently giving check to the side to move.
    fn checkers(&self, tables: &crate::attacks::AttackTables) -> (r: u64)
        requires
            tables.wf(),
            self.position.king_sq[side_idx(self.position.white_to_move)] < 64,
        ensures
            r == checkers_spec(*self.position),
    {
        let p = self.position;
        let w = p.white_to_move;
        let k = p.king_sq(w);
        let them = p.them(w);
        let kb = crate::bitboard::to_bb(k);
        let fwd = crate::bitboard::forward(w, kb, 1);
        (crate::attacks::get_bishop_attacks_from(tables, k, p.all_pieces) & (p.bishops()
            | p.queens()) & them) | (crate::attacks::get_rook_attacks_from(tables, k, p.all_pieces)
            & (p.rooks() | p.queens()) & them) | (crate::attacks::knight_attacks(k) & p.knights()
            & them) | ((crate::bitboard::left(fwd, 1) | crate::bitboard::right(fwd, 1)) & p.pawns()
            & them)
    }
}

/// The en-passant landing square as a bitboard, empty when unavailable.
pub open spec fn ep_target_bb(p: Position) -> u64 {
    if p.details.en_passant != 255 {
        crate::bitboard::bit(ep_square_spec(p))
    } else {
        0u64
    }
}

/// The side to move's promotion rank as a bitboard.
pub open spec fn promotion_rank_bb(white: bool) -> u64 {
    if white {
        crate::bitboard::RANK_8
    } else {
        crate::bitboard::RANK_1
    }
}

/// The capture candidates that `good_captures` generates before splitting by
/// exchange value: under double check only king moves onto enemy pieces;
/// under single check captures of the checker, promotions and the en-passant
/// square; otherwise every capture, promotion and the en-passant square.
pub open spec fn capture_candidates_spec(p: Position) -> Seq<Move> {
    let w = p.white_to_move;
    let them = p.pieces[side_idx(!w)];
    let checkers = checkers_spec(p);
    if crate::bitboard::popcnt(checkers) > 1 {
        king_moves_spec(p, them & p.all_pieces)
    } else if checkers != 0 {
        let targets = checkers | promotion_rank_bb(w) | ep_target_bb(p);
        pawn_moves_spec(p, targets) + piece_moves_spec(p, Piece::Knight, checkers)
            + piece_moves_spec(p, Piece::Bishop, checkers) + piece_moves_spec(
            p,
            Piece::Rook,
            checkers,
        ) + piece_moves_spec(p, Piece::Queen, checkers) + king_moves_spec(p, them & p.all_pieces)
    } else {
        let targets = (them & p.all_pieces) | promotion_rank_bb(w) | ep_target_bb(p);
        pawn_moves_spec(p, targets) + piece_moves_spec(p, Piece::Knight, them & p.all_pieces)
            + piece_moves_spec(p, Piece::Bishop, them & p.all_pieces) + piece_moves_spec(
            p,
            Piece::Rook,
            them & p.all_pieces,
        ) + piece_moves_spec(p, Piece::Queen, them & p.all_pieces) + king_moves_spec(
            p,
            them & p.all_pieces,
        )
    }
}

/// The capture-ordering score: captured value scaled up, queen promotions
/// rewarded, and the cheaper the mover the better.
pub open spec fn mvv_lva_spec(m: Move) -> int {
    (match m.captured {
        Some(c) => piece_value(c),
        None => 0int,
    }) * 128 + (if m.promoted == Some(Piece::Queen) {
        piece_value(Piece::Queen)
    } else {
        0int
    }) - piece_value(m.piece)
}

impl Move {
    /// The capture-ordering score of the move (most valuable victim first,
    /// least valuable attacker second).
    pub fn mvv_lva_score(self) -> (r: i64)
        ensures
            r == mvv_lva_spec(self),
    {
        let mut score: i64 = match self.captured {
            Some(c) => c.value() as i64,
            None => 0,
        } * 128;
        let queen_promo = match self.promoted {
            Some(pp) => pp.index() == 4,
            None => false,
        };
        if queen_promo {
            score += Piece::Queen.value() as i64;
        }
        score -= self.piece.value() as i64;
        score
    }
}

/// The split of the capture candidates into winning-or-equal and losing
/// exchanges, exactly as the generator's sweep performs it: a kept move gets
/// its ordering score; a losing one moves to the bad lists and the last
/// candidate is swapped into its slot.
pub open spec fn split_caps(
    p: Position,
    moves: Seq<Move>,
    scores: Seq<i64>,
    bad: Seq<Move>,
    bad_scores: Seq<i64>,
    i: int,
) -> (Seq<Move>, Seq<i64>, Seq<Move>, Seq<i64>)
    decreases moves.len() - i,
{
    if i < 0 || i >= moves.len() {
        (moves, scores, bad, bad_scores)
    } else {
        let mv = moves[i];
        if crate::position::see_spec(p, mv) >= 0 {
            split_caps(p, moves, scores.push(mvv_lva_spec(mv) as i64), bad, bad_scores, i + 1)
        } else {
            split_caps(
                p,
                moves.update(i, moves.last()).drop_last(),
                scores,
                bad.push(mv),
                bad_scores.push(mvv_lva_spec(mv) as i64),
                i,
            )
        }
    }
}

impl MoveGenerator<'_> {
    /// Generate the capture candidates and split them into `moves`/`scores`
    /// (exchange value at least zero) and `bad_moves`/`bad_scores` (losing
    /// exchanges, appended); scores are capture-ordering scores.
    pub fn good_captures(
        &self,
        tables: &crate::attacks::AttackTables,
        moves: &mut Vec<Move>,
        scores: &mut Vec<i64>,
        bad_moves: &mut Vec<Move>,
        bad_scores: &mut Vec<i64>,
    )
        requires
            tables.wf(),
            self.position.king_sq[side_idx(self.position.white_to_move)] < 64,
            self.position.details.en_passant == 255 || self.position.details.en_passant < 8,
        ensures
            ({
                let split = split_caps(
                    *self.position,
                    capture_candidates_spec(*self.position),
                    Seq::empty(),
                    old(bad_moves)@,
                    old(bad_scores)@,
                    0,
                );
                final (moves)@ == split.0 && final (scores)@ == split.1 && final (bad_moves)@
                    == split.2 && final (bad_scores)@ == split.3
            }),
    {
        let p = self.position;
        let w = p.white_to_move;
        let all_pieces = p.all_pieces;
        let them = p.them(w);
        moves.clear();
        scores.clear();

        let checkers = self.checkers(tables);
        if crate::bitboard::more_than_one(checkers) {
            self.king(tables, them & all_pieces, moves);
        } else if checkers != 0 {
            let ep: u64 = if p.details.en_passant != 255 {
                if w {
                    crate::bitboard::to_bb(crate::bitboard::file_rank(p.details.en_passant, 5))
                } else {
                    crate::bitboard::to_bb(crate::bitboard::file_rank(p.details.en_passant, 2))
                }
            } else {
                0
            };
            let promotion_rank = if w {
                crate::bitboard::RANK_8
            } else {
                crate::bitboard::RANK_1
            };
            self.pawn(checkers | promotion_rank | ep, moves);
            self.knight(tables, checkers, moves);
            self.bishop(tables, checkers, moves);
            self.rook(tables, checkers, moves);
            self.queen(tables, checkers, moves);
            self.king(tables, them & all_pieces, moves);
        } else {
            let ep: u64 = if p.details.en_passant != 255 {
                if w {
                    crate::bitboard::to_bb(crate::bitboard::file_rank(p.details.en_passant, 5))
                } else {
                    crate::bitboard::to_bb(crate::bitboard::file_rank(p.details.en_passant, 2))
                }
            } else {
                0
            };
            let promotion_rank = if w {
                crate::bitboard::RANK_8
            } else {
                crate::bitboard::RANK_1
            };
            self.pawn(them & all_pieces | promotion_rank | ep, moves);
            self.knight(tables, them & all_pieces, moves);
            self.bishop(tables, them & all_pieces, moves);
            self.rook(tables, them & all_pieces, moves);
            self.queen(tables, them & all_pieces, moves);
            self.king(tables, them & all_pieces, moves);
        }
        proof {
            assert(moves@ == capture_candidates_spec(*p));
        }

        let ghost bad0 = bad_moves@;
        let ghost bs0 = bad_scores@;
        let ghost gen = moves@;
        let mut i: usize = 0;
        while i < moves.len()
            invariant
                tables.wf(),
                i <= moves@.len(),
                moves_in_range(moves@, 0),
                split_caps(*p, moves@, scores@, bad_moves@, bad_scores@, i as int) == split_caps(
                    *p,
                    gen,
                    Seq::empty(),
                    bad0,
                    bs0,
                    0,
                ),
            decreases moves@.len() - i,
        {
            let mov = moves[i];
            if p.see(tables, mov) >= 0 {
                scores.push(mov.mvv_lva_score());
                i += 1;
            } else {
                bad_scores.push(mov.mvv_lva_score());
                bad_moves.push(mov);
                moves.swap_remove(i);
            }
        }
    }

    /// Push the quiet moves onto `moves` after clearing it: non-captures
    /// away from promotion and en-passant squares, or only king retreats
    /// under double check.
    pub fn quiet_moves(&self, tables: &crate::attacks::AttackTables, moves: &mut Vec<Move>)
        requires
            tables.wf(),
            self.position.king_sq[side_idx(self.position.white_to_move)] < 64,
            self.position.details.en_passant == 255 || self.position.details.en_passant < 8,
        ensures
            final (moves)@ == quiet_moves_spec(*self.position),
            moves_in_range(final (moves)@, 0),
    {
        let p = self.position;
        let w = p.white_to_move;
        moves.clear();
        let checkers = self.checkers(tables);
        if crate::bitboard::more_than_one(checkers) {
            self.king(tables, !p.all_pieces, moves);
            return ;
        }
        let promotion_rank = if w {
            crate::bitboard::RANK_8
        } else {
            crate::bitboard::RANK_1
        };
        let ep: u64 = if p.details.en_passant != 255 {
            if w {
                crate::bitboard::to_bb(crate::bitboard::file_rank(p.details.en_passant, 5))
            } else {
                crate::bitboard::to_bb(crate::bitboard::file_rank(p.details.en_passant, 2))
            }
        } else {
            0
        };
        self.pawn(!p.all_pieces & !promotion_rank & !ep, moves);
        self.knight(tables, !p.all_pieces, moves);
        self.bishop(tables, !p.all_pieces, moves);
        self.rook(tables, !p.all_pieces, moves);
        self.queen(tables, !p.all_pieces, moves);
        self.king(tables, !p.all_pieces, moves);
    }

    /// Every pseudo-legal move: all pieces, towards every square not held by
    /// the side to move.
    pub fn all_moves(&self, tables: &crate::attacks::AttackTables) -> (r: Vec<Move>)
        requires
            tables.wf(),
            self.position.king_sq[side_idx(self.position.white_to_move)] < 64,
            self.position.details.en_passant == 255 || self.position.details.en_passant < 8,
        ensures
            r@ == all_moves_spec(*self.position),
            moves_in_range(r@, 0),
    {
        let p = self.position;
        let us = p.us(p.white_to_move);
        let all = !us;
        let mut moves: Vec<Move> = Vec::new();
        self.pawn(all, &mut moves);
        self.knight(tables, all, &mut moves);
        self.bishop(tables, all, &mut moves);
        self.rook(tables, all, &mut moves);
        self.queen(tables, all, &mut moves);
        self.king(tables, all, &mut moves);
        moves
    }
}

/// The quiet move list: under double check only king steps to empty squares,
/// otherwise the non-capturing moves of every piece, pawns kept off the
/// promotion rank and the en-passant square.
pub open spec fn quiet_moves_spec(p: Position) -> Seq<Move> {
    let w = p.white_to_move;
    let empty = !p.all_pieces;
    if crate::bitboard::popcnt(checkers_spec(p)) > 1 {
        king_moves_spec(p, empty)
    } else {
        pawn_moves_spec(p, empty & !promotion_rank_bb(w) & !ep_target_bb(p)) + piece_moves_spec(
            p,
            Piece::Knight,
            empty,
        ) + piece_moves_spec(p, Piece::Bishop, empty) + piece_moves_spec(p, Piece::Rook, empty)
            + piece_moves_spec(p, Piece::Queen, empty) + king_moves_spec(p, empty)
    }
}

/// The full pseudo-legal move list: every piece kind towards every square
/// not occupied by the side to move.
pub open spec fn all_moves_spec(p: Position) -> Seq<Move> {
    let targets = !p.pieces[side_idx(p.white_to_move)];
    pawn_moves_spec(p, targets) + piece_moves_spec(p, Piece::Knight, targets) + piece_moves_spec(
        p,
        Piece::Bishop,
        targets,
    ) + piece_moves_spec(p, Piece::Rook, targets) + piece_moves_spec(p, Piece::Queen, targets)
        + king_moves_spec(p, targets)
}


/// A long-algebraic move string that names an impossible coordinate pair, or
/// an origin square with no piece on it.
#[derive(Clone, Copy, PartialEq, Eq, Debug)]
pub struct BadMove;

/// The file index of a coordinate letter, `a` through `h`.
pub open spec fn file_of_byte(b: u8) -> Option<u8> {
    if 97 <= b <= 104 {
        Some((b - 97) as u8)
    } else {
        None
    }
}

/// The rank index of a coordinate digit, `1` through `8`.
pub open spec fn rank_of_byte(b: u8) -> Option<u8> {
    if 49 <= b <= 56 {
        Some((b - 49) as u8)
    } else {
        None
    }
}

/// The promotion piece named by a trailing letter, if any.
pub open spec fn promo_of_byte(b: u8) -> Option<Piece> {
    if b == 113 {
        Some(Piece::Queen)
    } else if b == 110 {
        Some(Piece::Knight)
    } else if b == 114 {
        Some(Piece::Rook)
    } else if b == 98 {
        Some(Piece::Bishop)
    } else {
        None
    }
}

/// How a long-algebraic move string decodes against a position: the four
/// coordinate characters give the squares, the moved piece is read off the
/// board, a pawn changing file to an empty square is an en-passant capture,
/// and a fifth character may name a promotion piece.
pub open spec fn from_algebraic_spec(p: Position, s: Seq<u8>) -> Result<Move, BadMove> {
    if s.len() < 4 {
        Err(BadMove)
    } else {
        match (file_of_byte(s[0]), rank_of_byte(s[1]), file_of_byte(s[2]), rank_of_byte(s[3])) {
            (Option::Some(ff), Option::Some(fr), Option::Some(tf), Option::Some(tr)) => {
                let from = (fr * 8 + ff) as u8;
                let to = (tr * 8 + tf) as u8;
                match crate::position::find_piece_spec(p, from as int) {
                    Option::None => Err(BadMove),
                    Option::Some(piece) => {
                        let ep = piece is Pawn && !(has(p.all_pieces, to as int)) && ff != tf;
                        let captured = if ep {
                            Some(Piece::Pawn)
                        } else {
                            crate::position::find_piece_spec(p, to as int)
                        };
                        let promoted = if s.len() >= 5 {
                            promo_of_byte(s[4])
                        } else {
                            None
                        };
                        Ok(Move { from, to, piece, captured, promoted, en_passant: ep })
                    },
                }
            },
            _ => Err(BadMove),
        }
    }
}

/// The file letter of a file index.
pub open spec fn file_char(f: int) -> char {
    if f == 0 {
        'a'
    } else if f == 1 {
        'b'
    } else if f == 2 {
        'c'
    } else if f == 3 {
        'd'
    } else if f == 4 {
        'e'
    } else if f == 5 {
        'f'
    } else if f == 6 {
        'g'
    } else {
        'h'
    }
}

/// The rank digit of a rank index.
pub open spec fn rank_char(r: int) -> char {
    if r == 0 {
        '1'
    } else if r == 1 {
        '2'
    } else if r == 2 {
        '3'
    } else if r == 3 {
        '4'
    } else if r == 4 {
        '5'
    } else if r == 5 {
        '6'
    } else if r == 6 {
        '7'
    } else {
        '8'
    }
}

/// The promotion suffix of a move.
pub open spec fn promo_suffix(p: Option<Piece>) -> Seq<char> {
    match p {
        Option::Some(Piece::Queen) => seq!['q'],
        Option::Some(Piece::Knight) => seq!['n'],
        Option::Some(Piece::Rook) => seq!['r'],
        Option::Some(Piece::Bishop) => seq!['b'],
        _ => Seq::empty(),
    }
}

/// The long-algebraic notation of a move: origin and destination coordinates
/// and a promotion letter where one applies.
pub open spec fn alg_of(m: Move) -> Seq<char> {
    seq![
        file_char(crate::bitboard::file_of(m.from as int)),
        rank_char(crate::bitboard::rank_of(m.from as int)),
        file_char(crate::bitboard::file_of(m.to as int)),
        rank_char(crate::bitboard::rank_of(m.to as int)),
    ] + promo_suffix(m.promoted)
}

/// The one-letter string of a file index.
fn file_str(f: u8) -> (r: &'static str)
    requires
        f < 8,
    ensures
        r@ == seq![file_char(f as int)],
{
    proof {
        reveal_strlit("a");
        reveal_strlit("b");
        reveal_strlit("c");
        reveal_strlit("d");
        reveal_strlit("e");
        reveal_strlit("f");
        reveal_strlit("g");
        reveal_strlit("h");
    }
    match f {
        0 => "a",
        1 => "b",
        2 => "c",
        3 => "d",
        4 => "e",
        5 => "f",
        6 => "g",
        _ => "h",
    }
}

/// The one-digit string of a rank index.
fn rank_str(r: u8) -> (res: &'static str)
    requires
        r < 8,
    ensures
        res@ == seq![rank_char(r as int)],
{
    proof {
        reveal_strlit("1");
        reveal_strlit("2");
        reveal_strlit("3");
        reveal_strlit("4");
        reveal_strlit("5");
        reveal_strlit("6");
        reveal_strlit("7");
        reveal_strlit("8");
    }
    match r {
        0 => "1",
        1 => "2",
        2 => "3",
        3 => "4",
        4 => "5",
        5 => "6",
        6 => "7",
        _ => "8",
    }
}

impl Move {
    /// Decode a long-algebraic move string against a position.  A string
    /// shorter than four characters, a coordinate outside the board, or an
    /// empty origin square is a `BadMove`.
    pub fn from_algebraic(pos: &Position, alg: &str) -> (r: Result<Move, BadMove>)
        ensures
            r == from_algebraic_spec(*pos, alg.spec_bytes()),
    {
        let bytes = alg.as_bytes();
        if bytes.len() < 4 {
            return Err(BadMove);
        }
        let b0 = bytes[0];
        let b1 = bytes[1];
        let b2 = bytes[2];
        let b3 = bytes[3];
        if !(97 <= b0 && b0 <= 104) || !(49 <= b1 && b1 <= 56) || !(97 <= b2 && b2 <= 104) || !(
        49 <= b3 && b3 <= 56) {
            return Err(BadMove);
        }
        let from_file = b0 - 97;
        let from_rank = b1 - 49;
        let to_file = b2 - 97;
        let to_rank = b3 - 49;
        let from = crate::bitboard::file_rank(from_file, from_rank);
        let to = crate::bitboard::file_rank(to_file, to_rank);
        let piece = match pos.find_piece(from) {
            Some(piece) => piece,
            None => {
                return Err(BadMove);
            },
        };
        let en_passant;
        let captured;
        if piece == Piece::Pawn && !crate::bitboard::contains(pos.all_pieces, to) && from_file
            != to_file {
            en_passant = true;
            captured = Some(Piece::Pawn);
        } else {
            en_passant = false;
            captured = pos.find_piece(to);
        }
        let promoted = if bytes.len() >= 5 {
            match bytes[4] {
                113 => Some(Piece::Queen),
                110 => Some(Piece::Knight),
                114 => Some(Piece::Rook),
                98 => Some(Piece::Bishop),
                _ => None,
            }
        } else {
            None
        };
        Ok(Move { from, to, piece, captured, promoted, en_passant })
    }

    /// Write the move in long-algebraic notation.
    pub fn to_algebraic(self) -> (r: String)
        requires
            self.from < 64,
            self.to < 64,
            self.promoted matches Some(p) ==> (p is Queen || p is Knight || p is Rook
                || p is Bishop),
        ensures
            r@ == alg_of(self),
    {
        let mut alg = String::new();
        alg.append(file_str(crate::bitboard::file(self.from)));
        alg.append(rank_str(crate::bitboard::rank(self.from)));
        alg.append(file_str(crate::bitboard::file(self.to)));
        alg.append(rank_str(crate::bitboard::rank(self.to)));
        match self.promoted {
            Some(Piece::Queen) => {
                proof {
                    reveal_strlit("q");
                }
                alg.append("q");
            },
            Some(Piece::Knight) => {
                proof {
                    reveal_strlit("n");
                }
                alg.append("n");
            },
            Some(Piece::Rook) => {
                proof {
                    reveal_strlit("r");
                }
                alg.append("r");
            },
            Some(Piece::Bishop) => {
                proof {
                    reveal_strlit("b");
                }
                alg.append("b");
            },
            _ => {},
        }
        proof {
            assert(alg@ =~= alg_of(self));
        }
        alg
    }
}

} // verus!
