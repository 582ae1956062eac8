//! FEN input: a single text line describing a position.
//!
//! The parse is specified byte for byte by `fen_parse_spec`; a position is
//! returned only after its invariant has been checked, so every parsed
//! position is well formed.
use vstd::prelude::*;
use crate::bitboard::{bit, has, popcnt, Square};
use vstd::string::StringSliceAdditionalSpecFns;
use crate::movegen::Piece;
use crate::position::{bb_union, side_idx, IrreversibleDetails, Position};

verus! {

/// The FEN field in which an unexpected character was found.
#[derive(Copy, Clone, PartialEq, Eq, Debug, Structural)]
pub enum FenField {
    Board,
    Castling,
    EnPassant,
}

/// An unrecognised character in a FEN field, or a board that does not
/// describe a position with one king per side.
#[derive(Copy, Clone, PartialEq, Eq, Debug, Structural)]
pub struct ParseError {
    pub character: char,
    pub field: FenField,
}

/// The piece and colour a board-field byte denotes.
pub open spec fn piece_of_byte(c: u8) -> Option<(Piece, bool)> {
    if c == 80 {
        Some((Piece::Pawn, true))
    } else if c == 78 {
        Some((Piece::Knight, true))
    } else if c == 66 {
        Some((Piece::Bishop, true))
    } else if c == 82 {
        Some((Piece::Rook, true))
    } else if c == 81 {
        Some((Piece::Queen, true))
    } else if c == 75 {
        Some((Piece::King, true))
    } else if c == 112 {
        Some((Piece::Pawn, false))
    } else if c == 110 {
        Some((Piece::Knight, false))
    } else if c == 98 {
        Some((Piece::Bishop, false))
    } else if c == 114 {
        Some((Piece::Rook, false))
    } else if c == 113 {
        Some((Piece::Queen, false))
    } else if c == 107 {
        Some((Piece::King, false))
    } else {
        None
    }
}

/// The state carried through the board field: the next byte, the cursor
/// square, the per-piece boards and the per-side boards.
pub struct BoardAcc {
    pub i: int,
    pub file: int,
    pub rank: int,
    pub bb: [u64; 6],
    pub white: u64,
    pub black: u64,
}

/// One step per byte through the board field of a FEN line: piece letters
/// place and advance, digits skip files, a slash drops to the next rank, and
/// a space ends the field.
pub open spec fn board_field(s: Seq<u8>, acc: BoardAcc) -> Result<BoardAcc, ParseError>
    decreases s.len() - acc.i,
{
    if acc.i < 0 || acc.i >= s.len() {
        Err(ParseError { character: ' ', field: FenField::Board })
    } else {
        let c = s[acc.i];
        if c == 32 {
            Ok(BoardAcc { i: acc.i + 1, ..acc })
        } else if c == 47 {
            if acc.rank <= 0 {
                Err(ParseError { character: '/', field: FenField::Board })
            } else {
                board_field(s, BoardAcc { i: acc.i + 1, file: 0, rank: acc.rank - 1, ..acc })
            }
        } else if 49 <= c <= 56 {
            if acc.file > 8 {
                Err(ParseError { character: c as char, field: FenField::Board })
            } else {
                board_field(s, BoardAcc { i: acc.i + 1, file: acc.file + (c - 48), ..acc })
            }
        } else {
            match piece_of_byte(c) {
                Some(pw) => {
                    if acc.file > 7 || acc.rank > 7 || acc.rank < 0 {
                        Err(ParseError { character: c as char, field: FenField::Board })
                    } else {
                        let sq = acc.rank * 8 + acc.file;
                        let pi = crate::movegen::piece_idx(pw.0);
                        let nbb = [
                            if pi == 0 {
                                acc.bb[0] ^ bit(sq)
                            } else {
                                acc.bb[0]
                            },
                            if pi == 1 {
                                acc.bb[1] ^ bit(sq)
                            } else {
                                acc.bb[1]
                            },
                            if pi == 2 {
                                acc.bb[2] ^ bit(sq)
                            } else {
                                acc.bb[2]
                            },
                            if pi == 3 {
                                acc.bb[3] ^ bit(sq)
                            } else {
                                acc.bb[3]
                            },
                            if pi == 4 {
                                acc.bb[4] ^ bit(sq)
                            } else {
                                acc.bb[4]
                            },
                            if pi == 5 {
                                acc.bb[5] ^ bit(sq)
                            } else {
                                acc.bb[5]
                            },
                        ];
                        board_field(
                            s,
                            BoardAcc {
                                i: acc.i + 1,
                                file: acc.file + 1,
                                bb: nbb,
                                white: if pw.1 {
                                    acc.white ^ bit(sq)
                                } else {
                                    acc.white
                                },
                                black: if !pw.1 {
                                    acc.black ^ bit(sq)
                                } else {
                                    acc.black
                                },
                                ..acc
                            },
                        )
                    }
                },
                None => Err(ParseError { character: c as char, field: FenField::Board }),
            }
        }
    }
}

/// The bytes of one space-separated token starting at `i`, and the index
/// one past its trailing space (or the end of the line).
pub open spec fn token_end(s: Seq<u8>, i: int) -> int
    decreases s.len() - i,
{
    if i < 0 || i >= s.len() {
        i
    } else if s[i] == 32 {
        i
    } else {
        token_end(s, i + 1)
    }
}

/// The castling mask a castling-field token denotes.
pub open spec fn castling_field(s: Seq<u8>, i: int, end: int, acc: u8) -> Result<u8, ParseError>
    decreases end - i,
{
    if i < 0 || i >= end {
        Ok(acc)
    } else {
        let c = s[i];
        if c == 45 {
            Ok(acc)
        } else if c == 75 {
            castling_field(s, i + 1, end, acc | crate::position::CASTLE_WHITE_KSIDE)
        } else if c == 81 {
            castling_field(s, i + 1, end, acc | crate::position::CASTLE_WHITE_QSIDE)
        } else if c == 107 {
            castling_field(s, i + 1, end, acc | crate::position::CASTLE_BLACK_KSIDE)
        } else if c == 113 {
            castling_field(s, i + 1, end, acc | crate::position::CASTLE_BLACK_QSIDE)
        } else {
            Err(ParseError { character: c as char, field: FenField::Castling })
        }
    }
}

/// The numeric value of a token of digits, if it is one and fits the bound.
pub open spec fn digits_value(s: Seq<u8>, i: int, end: int, acc: int, bound: int) -> Option<int>
    decreases end - i,
{
    if i < 0 || i >= end {
        Some(acc)
    } else {
        let c = s[i];
        if 48 <= c <= 57 {
            let v = acc * 10 + (c - 48);
            if v > bound {
                None
            } else {
                digits_value(s, i + 1, end, v, bound)
            }
        } else {
            None
        }
    }
}

/// Whether the boards parsed from a FEN line describe a position the
/// invariant accepts: disjoint piece boards, matching side boards, and one
/// king per side.
pub open spec fn boards_ok(bb: [u64; 6], white: u64, black: u64) -> bool {
    &&& (forall|i: int, j: int| 0 <= i < j < 6 ==> bb[i] & bb[j] == 0)
    &&& white & black == 0
    &&& (bb_union(bb) == (white | black))
    &&& popcnt(bb[5] & white) == 1
    &&& popcnt(bb[5] & black) == 1
}

/// The position a FEN line denotes: board, side to move, castling rights,
/// en-passant file (its rank, when given, must suit the side to move),
/// halfmove clock and fullmove number, validated so the result satisfies
/// the position invariant.
pub open spec fn fen_parse_spec(s: Seq<u8>) -> Result<Position, ParseError> {
    let acc0 = BoardAcc { i: 0, file: 0, rank: 7, bb: [0u64, 0, 0, 0, 0, 0], white: 0, black: 0 };
    match board_field(s, acc0) {
        Err(e) => Err(e),
        Ok(acc) => {
            let side_end = token_end(s, acc.i);
            let white_to_move = !(side_end - acc.i == 1 && s[acc.i] == 98);
            let ci = if side_end < s.len() {
                side_end + 1
            } else {
                side_end
            };
            let castle_end = token_end(s, ci);
            match castling_field(s, ci, castle_end, 0) {
                Err(e) => Err(e),
                Ok(castling) => {
                    let ei = if castle_end < s.len() {
                        castle_end + 1
                    } else {
                        castle_end
                    };
                    let ep_end = token_end(s, ei);
                    let ep = if ei < ep_end && !(ep_end - ei == 1 && s[ei] == 45) {
                        if 97 <= s[ei] <= 104 {
                            if ep_end - ei >= 2 && s[ei + 1] != (if white_to_move {
                                54u8
                            } else {
                                51u8
                            }) {
                                Err(
                                    ParseError {
                                        character: s[ei + 1] as char,
                                        field: FenField::EnPassant,
                                    },
                                )
                            } else {
                                Ok((s[ei] - 97) as u8)
                            }
                        } else {
                            Err(ParseError { character: s[ei] as char, field: FenField::EnPassant })
                        }
                    } else {
                        Ok(255u8)
                    };
                    match ep {
                        Err(e) => Err(e),
                        Ok(en_passant) => {
                            let hi = if ep_end < s.len() {
                                ep_end + 1
                            } else {
                                ep_end
                            };
                            let h_end = token_end(s, hi);
                            let halfmove = match digits_value(s, hi, h_end, 0, 255) {
                                Some(v) => if hi < h_end {
                                    v
                                } else {
                                    0
                                },
                                None => 0,
                            };
                            let fi = if h_end < s.len() {
                                h_end + 1
                            } else {
                                h_end
                            };
                            let f_end = token_end(s, fi);
                            let fullmove = match digits_value(s, fi, f_end, 0, usize::MAX as int) {
                                Some(v) => if fi < f_end {
                                    v
                                } else {
                                    1
                                },
                                None => 1,
                            };
                            finish_position(
                                acc.bb,
                                acc.white,
                                acc.black,
                                white_to_move,
                                castling,
                                en_passant,
                                halfmove as u8,
                                fullmove as usize,
                            )
                        },
                    }
                },
            }
        },
    }
}

/// Assemble and validate the parsed position: the derived boards are
/// recomputed and the invariant checks must pass.
pub open spec fn finish_position(
    bb: [u64; 6],
    white: u64,
    black: u64,
    white_to_move: bool,
    castling: u8,
    en_passant: u8,
    halfmove: u8,
    fullmove: usize,
) -> Result<Position, ParseError> {
    if !boards_ok(bb, white, black) {
        Err(ParseError { character: 'K', field: FenField::Board })
    } else {
        let all = white | black;
        let wk = crate::bitboard::u64_tz(bb[5] & white);
        let bk = crate::bitboard::u64_tz(bb[5] & black);
        if bb[5] & white != bit(wk as int) || bb[5] & black != bit(bk as int) || castling >= 16 {
            Err(ParseError { character: 'K', field: FenField::Board })
        } else {
            Ok(
                Position {
                    color: white,
                    bb: bb,
                    pieces: [black, white],
                    white_to_move: white_to_move,
                    fullmove: fullmove,
                    details: IrreversibleDetails { halfmove, en_passant, castling },
                    all_pieces: all,
                    king_sq: [bk as Square, wk as Square],
                },
            )
        }
    }
}



/// Adding one castling bit keeps the mask below sixteen.
proof fn lemma_castle_bits(c: u8)
    by (bit_vector)
    ensures
        c < 16 ==> (c | 1) < 16 && (c | 2) < 16 && (c | 4) < 16 && (c | 8) < 16,
        (c | 1) < 16 ==> c < 16 || true,
{
}

/// The index one past the space-separated token starting at `i`.
fn find_token_end(bytes: &[u8], i: usize) -> (r: usize)
    requires
        i <= bytes@.len(),
    ensures
        r == token_end(bytes@, i as int),
        i <= r <= bytes@.len(),
{
    let n = bytes.len();
    let mut j = i;
    while j < n && bytes[j] != 32
        invariant
            i <= j <= n,
            n == bytes@.len(),
            token_end(bytes@, i as int) == token_end(bytes@, j as int),
        decreases n - j,
    {
        j += 1;
    }
    j
}

/// Parse a position from a FEN line: board, side to move, castling rights,
/// en-passant square, halfmove clock and fullmove number.  An unrecognised
/// character is reported with its field; a board without exactly one king a
/// side is rejected; every returned position satisfies the invariant.
#[verifier::rlimit(100)]
pub fn from_fen(fen: &str) -> (r: Result<Position, ParseError>)
    ensures
        r == fen_parse_spec(fen.spec_bytes()),
        (r matches Ok(p) ==> p.wf()),
{
    let bytes = fen.as_bytes();
    let n = bytes.len();
    let ghost s = bytes@;

    let mut i: usize = 0;
    let mut file: u8 = 0;
    let mut rank: u8 = 7;
    let mut bb: [u64; 6] = [0, 0, 0, 0, 0, 0];
    let mut white: u64 = 0;
    let mut black: u64 = 0;
    let ghost acc0 = BoardAcc { i: 0, file: 0, rank: 7, bb: [0u64, 0, 0, 0, 0, 0], white: 0, black: 0 };

    loop
        invariant_except_break
            board_field(s, acc0) == board_field(
                s,
                BoardAcc {
                    i: i as int,
                    file: file as int,
                    rank: rank as int,
                    bb: bb,
                    white: white,
                    black: black,
                },
            ),
        invariant
            i <= n,
            n == s.len(),
            s == bytes@,
            s == fen.spec_bytes(),
            (acc0 == BoardAcc { i: 0, file: 0, rank: 7, bb: [0u64, 0, 0, 0, 0, 0], white: 0, black: 0 }),
            file <= 16,
            rank <= 7,
        ensures
            (board_field(s, acc0) matches Ok(a) && a.i == i && a.bb == bb && a.white == white
                && a.black == black),
        decreases n - i,
    {
        if i >= n {
            return Err(ParseError { character: ' ', field: FenField::Board });
        }
        let c = bytes[i];
        if c == 32 {
            i += 1;
            break ;
        } else if c == 47 {
            if rank == 0 {
                return Err(ParseError { character: '/', field: FenField::Board });
            }
            file = 0;
            rank = rank - 1;
            i += 1;
        } else if 49 <= c && c <= 56 {
            if file > 8 {
                return Err(ParseError { character: c as char, field: FenField::Board });
            }
            file = file + (c - 48);
            i += 1;
        } else {
            let pw: (Piece, bool) = if c == 80 {
                (Piece::Pawn, true)
            } else if c == 78 {
                (Piece::Knight, true)
            } else if c == 66 {
                (Piece::Bishop, true)
            } else if c == 82 {
                (Piece::Rook, true)
            } else if c == 81 {
                (Piece::Queen, true)
            } else if c == 75 {
                (Piece::King, true)
            } else if c == 112 {
                (Piece::Pawn, false)
            } else if c == 110 {
                (Piece::Knight, false)
            } else if c == 98 {
                (Piece::Bishop, false)
            } else if c == 114 {
                (Piece::Rook, false)
            } else if c == 113 {
                (Piece::Queen, false)
            } else if c == 107 {
                (Piece::King, false)
            } else {
                return Err(ParseError { character: c as char, field: FenField::Board });
            };
            if file > 7 {
                return Err(ParseError { character: c as char, field: FenField::Board });
            }
            let sq: u8 = rank * 8 + file;
            let pi = pw.0.index();
            let ghost pbb = bb;
            bb[pi] = bb[pi] ^ crate::bitboard::to_bb(sq);
            if pw.1 {
                white = white ^ crate::bitboard::to_bb(sq);
            } else {
                black = black ^ crate::bitboard::to_bb(sq);
            }
            file = file + 1;
            i += 1;
            proof {
                let gpi = crate::movegen::piece_idx(pw.0);
                assert(bb =~= [
                    if gpi == 0 {
                        pbb[0] ^ bit(sq as int)
                    } else {
                        pbb[0]
                    },
                    if gpi == 1 {
                        pbb[1] ^ bit(sq as int)
                    } else {
                        pbb[1]
                    },
                    if gpi == 2 {
                        pbb[2] ^ bit(sq as int)
                    } else {
                        pbb[2]
                    },
                    if gpi == 3 {
                        pbb[3] ^ bit(sq as int)
                    } else {
                        pbb[3]
                    },
                    if gpi == 4 {
                        pbb[4] ^ bit(sq as int)
                    } else {
                        pbb[4]
                    },
                    if gpi == 5 {
                        pbb[5] ^ bit(sq as int)
                    } else {
                        pbb[5]
                    },
                ]);
            }
        }
    }

    let side_end = find_token_end(bytes, i);
    let white_to_move = !(side_end - i == 1 && bytes[i] == 98);
    let ci = if side_end < n {
        side_end + 1
    } else {
        side_end
    };

    let castle_end = find_token_end(bytes, ci);
    let mut castling: u8 = 0;
    let mut j = ci;
    let mut castle_done = false;
    let mut castle_err: Option<ParseError> = None;
    loop
        invariant_except_break
            castle_err is None,
            !castle_done ==> castling_field(s, ci as int, castle_end as int, 0) == castling_field(
                s,
                j as int,
                castle_end as int,
                castling,
            ),
            castle_done ==> castling_field(s, ci as int, castle_end as int, 0) == Ok::<
                u8,
                ParseError,
            >(castling),
        invariant
            ci <= j <= castle_end,
            castle_end <= n,
            n == s.len(),
            s == bytes@,
            castling < 16,
        ensures
            castling < 16,
            (match castle_err {
                None => castling_field(s, ci as int, castle_end as int, 0) == Ok::<
                    u8,
                    ParseError,
                >(castling),
                Some(e) => castling_field(s, ci as int, castle_end as int, 0) == Err::<u8, _>(e),
            }),
        decreases castle_end - j, (if castle_done {
            0int
        } else {
            1
        }),
    {
        if castle_done || j >= castle_end {
            break ;
        }
        let c = bytes[j];
        proof {
            lemma_castle_bits(castling);
        }
        if c == 45 {
            castle_done = true;
        } else if c == 75 {
            castling = castling | crate::position::CASTLE_WHITE_KSIDE;
            j += 1;
        } else if c == 81 {
            castling = castling | crate::position::CASTLE_WHITE_QSIDE;
            j += 1;
        } else if c == 107 {
            castling = castling | crate::position::CASTLE_BLACK_KSIDE;
            j += 1;
        } else if c == 113 {
            castling = castling | crate::position::CASTLE_BLACK_QSIDE;
            j += 1;
        } else {
            castle_err = Some(ParseError { character: c as char, field: FenField::Castling });
            break ;
        }
    }
    match castle_err {
        Some(e) => {
            return Err(e);
        },
        None => {},
    }

    let ei = if castle_end < n {
        castle_end + 1
    } else {
        castle_end
    };
    let ep_end = find_token_end(bytes, ei);
    let en_passant: u8;
    if ei < ep_end && !(ep_end - ei == 1 && bytes[ei] == 45) {
        let c = bytes[ei];
        if 97 <= c && c <= 104 {
            let want: u8 = if white_to_move {
                54
            } else {
                51
            };
            if ep_end - ei >= 2 && bytes[ei + 1] != want {
                return Err(
                    ParseError { character: bytes[ei + 1] as char, field: FenField::EnPassant },
                );
            }
            en_passant = c - 97;
        } else {
            return Err(ParseError { character: c as char, field: FenField::EnPassant });
        }
    } else {
        en_passant = 255;
    }

    let hi = if ep_end < n {
        ep_end + 1
    } else {
        ep_end
    };
    let h_end = find_token_end(bytes, hi);
    let halfmove = parse_digits_u8(bytes, hi, h_end, 0);

    let fi = if h_end < n {
        h_end + 1
    } else {
        h_end
    };
    let f_end = find_token_end(bytes, fi);
    let fullmove = parse_digits_usize(bytes, fi, f_end, 1);

    build_position(bb, white, black, white_to_move, castling, en_passant, halfmove, fullmove)
}

/// Parse a halfmove token as the clock value, falling back to the default
/// when the token is absent, malformed or out of range.
fn parse_digits_u8(bytes: &[u8], i: usize, end: usize, default: u8) -> (r: u8)
    requires
        i <= end <= bytes@.len(),
    ensures
        r as int == (match digits_value(bytes@, i as int, end as int, 0, 255) {
            Some(v) => if i < end {
                v
            } else {
                default as int
            },
            None => default as int,
        }),
{
    if i >= end {
        return default;
    }
    let mut acc: u8 = 0;
    let mut j = i;
    while j < end
        invariant
            i <= j <= end,
            end <= bytes@.len(),
            digits_value(bytes@, i as int, end as int, 0, 255) == digits_value(
                bytes@,
                j as int,
                end as int,
                acc as int,
                255,
            ),
        decreases end - j,
    {
        let c = bytes[j];
        if c < 48 || c > 57 {
            return default;
        }
        let d = c - 48;
        if acc > 25 || (acc == 25 && d > 5) {
            return default;
        }
        acc = acc * 10 + d;
        j += 1;
    }
    acc
}

/// Parse a fullmove token, falling back to the default when the token is
/// absent, malformed or out of range.
fn parse_digits_usize(bytes: &[u8], i: usize, end: usize, default: usize) -> (r: usize)
    requires
        i <= end <= bytes@.len(),
    ensures
        r as int == (match digits_value(bytes@, i as int, end as int, 0, usize::MAX as int) {
            Some(v) => if i < end {
                v
            } else {
                default as int
            },
            None => default as int,
        }),
{
    if i >= end {
        return default;
    }
    let mut acc: usize = 0;
    let mut j = i;
    while j < end
        invariant
            i <= j <= end,
            end <= bytes@.len(),
            digits_value(bytes@, i as int, end as int, 0, usize::MAX as int) == digits_value(
                bytes@,
                j as int,
                end as int,
                acc as int,
                usize::MAX as int,
            ),
        decreases end - j,
    {
        let c = bytes[j];
        if c < 48 || c > 57 {
            return default;
        }
        let d = (c - 48) as usize;
        let next = match acc.checked_mul(10) {
            Some(x) => x.checked_add(d),
            None => None,
        };
        match next {
            Some(v) => {
                acc = v;
            },
            None => {
                return default;
            },
        }
        j += 1;
    }
    acc
}

/// Assemble the parsed boards into a position, rejecting boards the
/// invariant cannot accept.
fn build_position(
    bb: [u64; 6],
    white: u64,
    black: u64,
    white_to_move: bool,
    castling: u8,
    en_passant: u8,
    halfmove: u8,
    fullmove: usize,
) -> (r: Result<Position, ParseError>)
    requires
        castling < 16,
        en_passant == 255 || en_passant < 8,
    ensures
        r == finish_position(bb, white, black, white_to_move, castling, en_passant, halfmove, fullmove),
        (r matches Ok(p) ==> p.wf()),
{
    let bad = ParseError { character: 'K', field: FenField::Board };
    let mut k: usize = 0;
    while k < 6
        invariant
            k <= 6,
            (bad == ParseError { character: 'K', field: FenField::Board }),
            forall|a: int, b: int| 0 <= a < b < 6 && a < k ==> bb[a] & bb[b] == 0,
        decreases 6 - k,
    {
        let mut l = k + 1;
        while l < 6
            invariant
                k < 6,
                k + 1 <= l <= 6,
                (bad == ParseError { character: 'K', field: FenField::Board }),
                forall|b: int| k < b < l ==> bb[k as int] & bb[b] == 0,
                forall|a: int, b: int| 0 <= a < b < 6 && a < k ==> bb[a] & bb[b] == 0,
            decreases 6 - l,
        {
            if bb[k] & bb[l] != 0 {
                return Err(bad);
            }
            l += 1;
        }
        k += 1;
    }
    if white & black != 0 {
        return Err(bad);
    }
    let all = white | black;
    if bb[0] | bb[1] | bb[2] | bb[3] | bb[4] | bb[5] != all {
        return Err(bad);
    }
    if crate::bitboard::popcount(bb[5] & white) != 1 || crate::bitboard::popcount(bb[5] & black)
        != 1 {
        return Err(bad);
    }
    proof {
        assert(boards_ok(bb, white, black));
    }
    let wk = (bb[5] & white).trailing_zeros();
    let bk = (bb[5] & black).trailing_zeros();
    proof {
        vstd::std_specs::bits::axiom_u64_trailing_zeros(bb[5] & white);
        vstd::std_specs::bits::axiom_u64_trailing_zeros(bb[5] & black);
        crate::bitboard::lemma_popcnt_zero(bb[5] & white);
        crate::bitboard::lemma_popcnt_zero(bb[5] & black);
    }
    let wkb = crate::bitboard::to_bb(wk as u8);
    let bkb = crate::bitboard::to_bb(bk as u8);
    if bb[5] & white != wkb || bb[5] & black != bkb {
        return Err(bad);
    }
    proof {
        assert((white | black) & white == white && (white | black) & !white == black && white & !(
        white | black) == 0) by (bit_vector)
            requires
                white & black == 0,
        ;
    }
    Ok(
        Position {
            color: white,
            bb,
            pieces: [black, white],
            white_to_move,
            fullmove,
            details: IrreversibleDetails { halfmove, en_passant, castling },
            all_pieces: all,
            king_sq: [bk as Square, wk as Square],
        },
    )
}

} // verus!
