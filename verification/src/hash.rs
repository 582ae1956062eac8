//! Incremental Zobrist hashing.
//!
//! The hash of a position is maintained by mirroring every toggle that
//! `make_move` performs with an XOR of a fixed random key, so `unmake_move`
//! cancels `make_move` exactly (`lemma_hash_make_unmake`).  The keys come
//! from a ChaCha20 stream over a fixed seed, so hash values are reproducible
//! across runs.
use vstd::prelude::*;
use crate::bitboard::{bit, file_of, has, Square};
use crate::movegen::{piece_idx, Move, Piece};
use crate::position::{
    castling_after, ep_victim, is_ks_castle, is_qs_castle, new_ep_file, side_idx,
    IrreversibleDetails, Position,
};

verus! {

/// A position hash.
pub type Hash = u64;

/// The fixed 32-byte seed the Zobrist keys are drawn from.
pub open spec fn key_seed() -> Seq<u8> {
    seq![
        1u8, 1, 2, 3, 5, 8, 13, 21, 34, 55, 89, 144, 233, 1, 2, 4, 8, 16, 32, 64, 128, 1, 2, 6,
        24, 120, 2, 3, 5, 7, 11, 13,
    ]
}

/// The Zobrist keys and the incrementally maintained hash: one key per
/// (piece kind, square), one per White-occupied square, one for the side to
/// move, one per en-passant file and one per castling mask.
pub struct Hasher {
    pub color: [u64; 64],
    pub pawns: [u64; 64],
    pub knights: [u64; 64],
    pub bishops: [u64; 64],
    pub rooks: [u64; 64],
    pub queens: [u64; 64],
    pub kings: [u64; 64],
    pub white_to_move: u64,
    pub en_passant: [u64; 8],
    pub castle: [u64; 16],
    pub hash: Hash,
}

impl Hasher {
    /// The keys are the fixed ChaCha20 stream over `key_seed`, drawn in
    /// field order.
    pub open spec fn keys_wf(self) -> bool {
        &&& forall|i: int| 0 <= i < 64 ==> self.color[i] == crate::rng::chacha_word(key_seed(), i)
        &&& forall|i: int|
            0 <= i < 64 ==> self.pawns[i] == crate::rng::chacha_word(key_seed(), 64 + i)
        &&& forall|i: int|
            0 <= i < 64 ==> self.knights[i] == crate::rng::chacha_word(key_seed(), 128 + i)
        &&& forall|i: int|
            0 <= i < 64 ==> self.bishops[i] == crate::rng::chacha_word(key_seed(), 192 + i)
        &&& forall|i: int|
            0 <= i < 64 ==> self.rooks[i] == crate::rng::chacha_word(key_seed(), 256 + i)
        &&& forall|i: int|
            0 <= i < 64 ==> self.queens[i] == crate::rng::chacha_word(key_seed(), 320 + i)
        &&& forall|i: int|
            0 <= i < 64 ==> self.kings[i] == crate::rng::chacha_word(key_seed(), 384 + i)
        &&& self.white_to_move == crate::rng::chacha_word(key_seed(), 448)
        &&& forall|i: int|
            0 <= i < 8 ==> self.en_passant[i] == crate::rng::chacha_word(key_seed(), 449 + i)
        &&& forall|i: int|
            0 <= i < 16 ==> self.castle[i] == crate::rng::chacha_word(key_seed(), 457 + i)
    }
}

/// The key of one piece kind on one square.
pub open spec fn hkey(h: Hasher, piece: Piece, sq: int) -> u64 {
    match piece {
        Piece::Pawn => h.pawns[sq],
        Piece::Knight => h.knights[sq],
        Piece::Bishop => h.bishops[sq],
        Piece::Rook => h.rooks[sq],
        Piece::Queen => h.queens[sq],
        Piece::King => h.kings[sq],
    }
}

/// The en-passant key leaving the hash: the old file's key, if any.
pub open spec fn hg_ep_old(h: Hasher, p: Position) -> u64 {
    if p.details.en_passant != 255 {
        h.en_passant[p.details.en_passant as int]
    } else {
        0u64
    }
}

/// The en-passant key entering the hash: the new file's key, if the move
/// creates an en-passant opportunity.
pub open spec fn hg_ep_new(h: Hasher, p: Position, m: Move) -> u64 {
    if new_ep_file(p, m) != 255 {
        h.en_passant[file_of(m.from as int)]
    } else {
        0u64
    }
}

/// The keys of the captured piece: its square key, and for a White victim of
/// a Black move also its white-occupancy key.
pub open spec fn hg_capture(h: Hasher, m: Move, white: bool) -> u64 {
    match m.captured {
        Some(c) => if m.en_passant {
            h.pawns[ep_victim(white, m.to as int)] ^ (if !white {
                h.color[ep_victim(white, m.to as int)]
            } else {
                0u64
            })
        } else {
            match c {
                Piece::King => 0u64,
                _ => hkey(h, c, m.to as int),
            }
        },
        None => 0u64,
    }
}

/// The keys of the moving piece: source and target squares (the promoted
/// piece's key on the target), and for castling the rook's square and — for
/// White — occupancy keys.
pub open spec fn hg_mover(h: Hasher, m: Move, white: bool) -> u64 {
    let promo_key = match m.promoted {
        Some(pp) => match pp {
            Piece::Queen | Piece::Knight | Piece::Rook | Piece::Bishop => hkey(h, pp, m.to as int),
            _ => 0u64,
        },
        None => hkey(h, m.piece, m.to as int),
    };
    let castle_keys = if m.piece is King && m.to == m.from + 2 {
        h.rooks[m.to as int + 1] ^ h.rooks[m.to as int - 1] ^ (if white {
            h.color[m.to as int + 1] ^ h.color[m.to as int - 1]
        } else {
            0u64
        })
    } else if m.piece is King && m.from == m.to + 2 {
        h.rooks[m.to as int - 2] ^ h.rooks[m.to as int + 1] ^ (if white {
            h.color[m.to as int - 2] ^ h.color[m.to as int + 1]
        } else {
            0u64
        })
    } else {
        0u64
    };
    (hkey(h, m.piece, m.from as int) ^ promo_key) ^ castle_keys
}

/// The mover's white-occupancy keys: both endpoints for White; for Black the
/// target only when a White piece stood there.
pub open spec fn hg_mover_color(h: Hasher, p: Position, m: Move, white: bool) -> u64 {
    if white {
        h.color[m.to as int] ^ h.color[m.from as int]
    } else {
        if has(p.color, m.to as int) {
            h.color[m.to as int]
        } else {
            0u64
        }
    }
}

/// The hash after the move is applied, as `make_move` computes it.
pub open spec fn hash_make_spec(h: Hasher, p: Position, m: Move) -> u64 {
    let w = p.white_to_move;
    ((((((((h.hash ^ hg_ep_old(h, p)) ^ hg_ep_new(h, p, m)) ^ h.castle[p.details.castling as int])
        ^ hg_capture(h, m, w)) ^ hg_mover(h, m, w)) ^ hg_mover_color(h, p, m, w)) ^ h.castle[
        castling_after(p, m) as int]) ^ h.white_to_move)
}

/// The keys of the captured piece as `unmake_move` restores them: the
/// occupancy key is unconditional for a Black retraction.
pub open spec fn hg_uncapture(h: Hasher, m: Move, uw: bool) -> u64 {
    match m.captured {
        Some(c) => if m.en_passant {
            h.pawns[ep_victim(uw, m.to as int)] ^ (if !uw {
                h.color[ep_victim(uw, m.to as int)]
            } else {
                0u64
            })
        } else {
            match c {
                Piece::King => 0u64,
                _ => hkey(h, c, m.to as int) ^ (if !uw {
                    h.color[m.to as int]
                } else {
                    0u64
                }),
            }
        },
        None => 0u64,
    }
}

/// The mover's white-occupancy keys as `unmake_move` restores them: both
/// endpoints for White; for Black the source only when it shows a White bit.
pub open spec fn hg_unmover_color(h: Hasher, p: Position, m: Move, uw: bool) -> u64 {
    if uw {
        h.color[m.from as int] ^ h.color[m.to as int]
    } else {
        if has(p.color, m.from as int) {
            h.color[m.from as int]
        } else {
            0u64
        }
    }
}

/// The hash after the move is retracted, as `unmake_move` computes it; `p`
/// is the position before the retraction and `d` the saved details.
pub open spec fn hash_unmake_spec(h: Hasher, p: Position, m: Move, d: IrreversibleDetails) -> u64 {
    let uw = !p.white_to_move;
    ((((((((h.hash ^ h.white_to_move) ^ hg_ep_old(h, p)) ^ (if d.en_passant != 255 {
        h.en_passant[d.en_passant as int]
    } else {
        0u64
    })) ^ h.castle[p.details.castling as int]) ^ h.castle[d.castling as int]) ^ hg_unmover_color(
        h,
        p,
        m,
        uw,
    )) ^ hg_mover(h, m, uw)) ^ hg_uncapture(h, m, uw))
}

/// Sixteen toggles cancel eight: applying the same eight sets again, in any
/// of the two fixed orders the hasher uses, restores the original value.
proof fn lemma_hash_cancel(
    x: u64,
    a: u64,
    b: u64,
    c: u64,
    d: u64,
    e: u64,
    f: u64,
    g: u64,
    i: u64,
    dp: u64,
    fp: u64,
)
    by (bit_vector)
    requires
        (d ^ f) == (dp ^ fp),
    ensures
        ((((((((((((((((x ^ a) ^ b) ^ c) ^ d) ^ e) ^ f) ^ g) ^ i) ^ i) ^ b) ^ a) ^ g) ^ c) ^ fp)
            ^ e) ^ dp) == x,
{
}

/// Make/unmake round trip for the hash: retracting a move just played on a
/// consistent board restores the hash exactly.  The consistency facts say
/// that the move stays on the board and that a square shows a White bit
/// after a Black move exactly when a White piece was captured there.
pub proof fn lemma_hash_make_unmake(h: Hasher, p: Position, m: Move)
    requires
        m.from < 64,
        m.to < 64,
        m.from != m.to,
        (m.en_passant && m.captured is Some) ==> 0 <= ep_victim(p.white_to_move, m.to as int) < 64
            && ep_victim(p.white_to_move, m.to as int) != m.from,
        m.captured != Some(Piece::King),
        !p.white_to_move ==> !(has(p.color, m.from as int)),
        !p.white_to_move ==> (has(p.color, m.to as int) <==> (m.captured is Some
            && !m.en_passant)),
    ensures
        ({
            let q = crate::position::make_move_spec(p, m);
            let h1 = Hasher { hash: hash_make_spec(h, p, m), ..h };
            hash_unmake_spec(h1, q, m, p.details) == h.hash
        }),
{
    let w = p.white_to_move;
    let q = crate::position::make_move_spec(p, m);
    let h1 = Hasher { hash: hash_make_spec(h, p, m), ..h };
    assert(q.details.en_passant == new_ep_file(p, m));
    assert(hg_ep_old(h1, q) == hg_ep_new(h, p, m));
    let dm = hg_capture(h, m, w);
    let fm = hg_mover_color(h, p, m, w);
    let du = hg_uncapture(h1, m, w);
    let fu = hg_unmover_color(h1, q, m, w);
    assert((dm ^ fm) == (du ^ fu)) by {
        if w {
            crate::bitboard::lemma_xor_algebra(h.color[m.to as int], h.color[m.from as int], 0);
            match m.captured {
                Some(c) => {
                    if m.en_passant {
                        crate::bitboard::lemma_or_zero(
                            h.pawns[ep_victim(w, m.to as int)],
                        );
                    } else {
                        crate::bitboard::lemma_or_zero(
                            match c {
                                Piece::King => 0u64,
                                _ => hkey(h, c, m.to as int),
                            },
                        );
                    }
                },
                None => {},
            }
            assert(dm == du);
        } else {
            lemma_color_from_unchanged(p, m);
            assert(fu == 0);
            crate::bitboard::lemma_or_zero(dm ^ fm);
            crate::bitboard::lemma_or_zero(dm);
            crate::bitboard::lemma_or_zero(du);
            match m.captured {
                Some(c) => {
                    if m.en_passant {
                        assert(fm == 0);
                        assert(du == dm);
                    } else {
                        assert(fm == h.color[m.to as int]);
                        assert(du == hkey(h, c, m.to as int) ^ h.color[m.to as int]);
                    }
                },
                None => {
                    assert(fm == 0 && dm == 0 && du == 0);
                },
            }
        }
    }
    lemma_hash_cancel(
        h.hash,
        hg_ep_old(h, p),
        hg_ep_new(h, p, m),
        h.castle[p.details.castling as int],
        dm,
        hg_mover(h, m, w),
        fm,
        h.castle[castling_after(p, m) as int],
        h.white_to_move,
        du,
        fu,
    );
}

/// A Black move leaves the white-occupancy bit of its source square alone.
proof fn lemma_color_from_unchanged(p: Position, m: Move)
    requires
        !p.white_to_move,
        m.from < 64,
        m.to < 64,
        m.from != m.to,
        (m.en_passant && m.captured is Some) ==> 0 <= ep_victim(p.white_to_move, m.to as int) < 64
            && ep_victim(p.white_to_move, m.to as int) != m.from,
    ensures
        has(crate::position::color_after_make(p, p.white_to_move, m), m.from as int) == has(
            p.color,
            m.from as int,
        ),
{
    let w = p.white_to_move;
    let dc = crate::position::d_color_capture(w, m);
    assert(crate::position::d_color_castle(w, m) == 0);
    assert(crate::position::d_color_mover(w, m) == 0);
    crate::bitboard::lemma_or_zero(p.color ^ dc);
    crate::bitboard::lemma_bit_index(p.color, dc, m.from as u64);
    assert(!(has(dc, m.from as int))) by {
        let f = m.from as u64;
        match m.captured {
            Some(c) => {
                if m.en_passant {
                    let v = ep_victim(w, m.to as int) as u64;
                    crate::bitboard::lemma_bit_single(v, f);
                    assert(bit(ep_victim(w, m.to as int)) == 1u64 << v);
                } else {
                    let t = m.to as u64;
                    crate::bitboard::lemma_bit_single(t, f);
                    assert(bit(m.to as int) == 1u64 << t);
                }
            },
            None => {
                assert(0u64 & (1u64 << f) == 0) by (bit_vector);
            },
        }
    }
}


/// Two hashers share all their key tables.
pub open spec fn same_keys(a: Hasher, b: Hasher) -> bool {
    &&& a.color == b.color
    &&& a.pawns == b.pawns
    &&& a.knights == b.knights
    &&& a.bishops == b.bishops
    &&& a.rooks == b.rooks
    &&& a.queens == b.queens
    &&& a.kings == b.kings
    &&& a.white_to_move == b.white_to_move
    &&& a.en_passant == b.en_passant
    &&& a.castle == b.castle
}


/// Masking never raises a castling mask.
pub proof fn lemma_and_le()
    by (bit_vector)
    ensures
        forall|c: u8, m: u8| #[trigger] (c & m) <= c,
{
}

/// Distributing a group of two keys over a chain of two toggles.
proof fn lemma_chain2(x: u64, a: u64, b: u64)
    by (bit_vector)
    ensures
        (x ^ a) ^ b == x ^ (a ^ b),
        (x ^ a) ^ b == x ^ (b ^ a),
{
}

/// Distributing the king-move key group (castle rook and occupancy keys,
/// then the king's own squares) over the chain of toggles, in either order.
proof fn lemma_chain_king(x: u64, r1: u64, r2: u64, c1: u64, c2: u64, kf: u64, kt: u64)
    by (bit_vector)
    ensures
        ((((((x ^ r1) ^ r2) ^ c1) ^ c2) ^ kf) ^ kt) == x ^ ((kf ^ kt) ^ (((r1 ^ r2) ^ (c1
            ^ c2)))),
        ((((((x ^ kt) ^ kf) ^ r1) ^ r2) ^ c1) ^ c2) == x ^ ((kf ^ kt) ^ (((r1 ^ r2) ^ (c1
            ^ c2)))),
{
}

fn fill_keys(words: &Vec<u64>, offset: usize) -> (r: [u64; 64])
    requires
        offset + 64 <= words@.len(),
    ensures
        forall|i: int| 0 <= i < 64 ==> r[i] == words@[offset + i],
{
    let n = words.len();
    let mut r = [0u64; 64];
    let mut i: usize = 0;
    while i < 64
        invariant
            offset + 64 <= n,
            n == words@.len(),
            i <= 64,
            forall|k: int| 0 <= k < i ==> r[k] == words@[offset + k],
        decreases 64 - i,
    {
        r[i] = words[offset + i];
        i += 1;
    }
    r
}

impl Hasher {
    /// A hasher over the fixed key set, with the running hash at zero.
    pub fn new() -> (r: Hasher)
        ensures
            r.keys_wf(),
            r.hash == 0,
    {
        let mut seed: Vec<u8> = Vec::new();
        seed.push(1);
        seed.push(1);
        seed.push(2);
        seed.push(3);
        seed.push(5);
        seed.push(8);
        seed.push(13);
        seed.push(21);
        seed.push(34);
        seed.push(55);
        seed.push(89);
        seed.push(144);
        seed.push(233);
        seed.push(1);
        seed.push(2);
        seed.push(4);
        seed.push(8);
        seed.push(16);
        seed.push(32);
        seed.push(64);
        seed.push(128);
        seed.push(1);
        seed.push(2);
        seed.push(6);
        seed.push(24);
        seed.push(120);
        seed.push(2);
        seed.push(3);
        seed.push(5);
        seed.push(7);
        seed.push(11);
        seed.push(13);
        proof {
            assert(seed@ =~= key_seed());
        }
        let words = crate::rng::chacha_words(&seed, 473);
        let color = fill_keys(&words, 0);
        let pawns = fill_keys(&words, 64);
        let knights = fill_keys(&words, 128);
        let bishops = fill_keys(&words, 192);
        let rooks = fill_keys(&words, 256);
        let queens = fill_keys(&words, 320);
        let kings = fill_keys(&words, 384);
        let white_to_move = words[448];
        let mut en_passant = [0u64; 8];
        let mut i: usize = 0;
        while i < 8
            invariant
                words@.len() == 473,
                i <= 8,
                forall|k: int| 0 <= k < i ==> en_passant[k] == words@[449 + k],
                forall|k: int| 0 <= k < 473 ==> words@[k] == crate::rng::chacha_word(key_seed(), k),
            decreases 8 - i,
        {
            en_passant[i] = words[449 + i];
            i += 1;
        }
        let mut castle = [0u64; 16];
        let mut j: usize = 0;
        while j < 16
            invariant
                words@.len() == 473,
                j <= 16,
                forall|k: int| 0 <= k < j ==> castle[k] == words@[457 + k],
                forall|k: int| 0 <= k < 473 ==> words@[k] == crate::rng::chacha_word(key_seed(), k),
            decreases 16 - j,
        {
            castle[j] = words[457 + j];
            j += 1;
        }
        Hasher {
            color,
            pawns,
            knights,
            bishops,
            rooks,
            queens,
            kings,
            white_to_move,
            en_passant,
            castle,
            hash: 0,
        }
    }

    /// The current position hash.
    pub fn get_hash(&self) -> (r: Hash)
        ensures
            r == self.hash,
    {
        self.hash
    }

    /// The key of one piece kind on one square.
    fn piece_key(&self, piece: Piece, sq: Square) -> (r: u64)
        requires
            sq < 64,
        ensures
            r == hkey(*self, piece, sq as int),
    {
        match piece {
            Piece::Pawn => self.pawns[sq as usize],
            Piece::Knight => self.knights[sq as usize],
            Piece::Bishop => self.bishops[sq as usize],
            Piece::Rook => self.rooks[sq as usize],
            Piece::Queen => self.queens[sq as usize],
            Piece::King => self.kings[sq as usize],
        }
    }

    /// The capture and mover key toggles of one move, in `make_move` order.
    #[verifier::rlimit(60)]
    fn xor_move_keys(&mut self, mov: Move, w: bool)
        requires
            mov.from < 64,
            mov.to < 64,
            (mov.en_passant ==> (w ==> mov.to >= 8) && (!w ==> mov.to < 56)),
            (mov.piece is King && mov.to == mov.from + 2 ==> mov.to <= 62),
            (mov.piece is King && mov.from == mov.to + 2 ==> mov.to >= 2),
            (mov.promoted is Some ==> mov.piece is Pawn),
        ensures
            final (self).hash == (old(self).hash ^ hg_capture(*old(self), mov, w)) ^ hg_mover(
                *old(self),
                mov,
                w,
            ),
            same_keys(*final (self), *old(self)),
    {
        let ghost h0 = *self;
        let ghost base_cap = self.hash;
        match mov.captured {
            Some(piece) => {
                if mov.en_passant {
                    let victim: u8 = if w {
                        mov.to - 8
                    } else {
                        mov.to + 8
                    };
                    self.hash = self.hash ^ self.pawns[victim as usize];
                    if !w {
                        self.hash = self.hash ^ self.color[victim as usize];
                    }
                    proof {
                        lemma_chain2(
                            base_cap,
                            h0.pawns[ep_victim(w, mov.to as int)],
                            h0.color[ep_victim(w, mov.to as int)],
                        );
                        crate::bitboard::lemma_or_zero(h0.pawns[ep_victim(w, mov.to as int)]);
                    }
                } else {
                    match piece {
                        Piece::King => {},
                        _ => {
                            self.hash = self.hash ^ self.piece_key(piece, mov.to);
                        },
                    }
                }
            },
            None => {},
        }
        proof {
            crate::bitboard::lemma_or_zero(base_cap);
            assert(self.hash == base_cap ^ hg_capture(h0, mov, w));
        }

        let ghost base_mover = self.hash;
        match mov.piece {
            Piece::King => {
                if mov.to == mov.from + 2 {
                    let r1 = self.rooks[(mov.to + 1) as usize];
                    let r2 = self.rooks[(mov.to - 1) as usize];
                    self.hash = self.hash ^ r1;
                    self.hash = self.hash ^ r2;
                    if w {
                        self.hash = self.hash ^ self.color[(mov.to + 1) as usize];
                        self.hash = self.hash ^ self.color[(mov.to - 1) as usize];
                    }
                } else if mov.from == mov.to + 2 {
                    let r1 = self.rooks[(mov.to - 2) as usize];
                    let r2 = self.rooks[(mov.to + 1) as usize];
                    self.hash = self.hash ^ r1;
                    self.hash = self.hash ^ r2;
                    if w {
                        self.hash = self.hash ^ self.color[(mov.to - 2) as usize];
                        self.hash = self.hash ^ self.color[(mov.to + 1) as usize];
                    }
                }
                self.hash = self.hash ^ self.kings[mov.from as usize];
                self.hash = self.hash ^ self.kings[mov.to as usize];
                proof {
                    crate::bitboard::lemma_or_zero(0u64);
                    if is_ks_castle(mov) {
                        lemma_chain_king(
                            base_mover,
                            h0.rooks[mov.to as int + 1],
                            h0.rooks[mov.to as int - 1],
                            if w {
                                h0.color[mov.to as int + 1]
                            } else {
                                0u64
                            },
                            if w {
                                h0.color[mov.to as int - 1]
                            } else {
                                0u64
                            },
                            h0.kings[mov.from as int],
                            h0.kings[mov.to as int],
                        );
                        crate::bitboard::lemma_or_zero(
                            (base_mover ^ h0.rooks[mov.to as int + 1]) ^ h0.rooks[mov.to as int
                                - 1],
                        );
                        crate::bitboard::lemma_or_zero(
                            h0.rooks[mov.to as int + 1] ^ h0.rooks[mov.to as int - 1],
                        );
                    } else if is_qs_castle(mov) {
                        lemma_chain_king(
                            base_mover,
                            h0.rooks[mov.to as int - 2],
                            h0.rooks[mov.to as int + 1],
                            if w {
                                h0.color[mov.to as int - 2]
                            } else {
                                0u64
                            },
                            if w {
                                h0.color[mov.to as int + 1]
                            } else {
                                0u64
                            },
                            h0.kings[mov.from as int],
                            h0.kings[mov.to as int],
                        );
                        crate::bitboard::lemma_or_zero(
                            (base_mover ^ h0.rooks[mov.to as int - 2]) ^ h0.rooks[mov.to as int
                                + 1],
                        );
                        crate::bitboard::lemma_or_zero(
                            h0.rooks[mov.to as int - 2] ^ h0.rooks[mov.to as int + 1],
                        );
                    } else {
                        lemma_chain2(
                            base_mover,
                            h0.kings[mov.from as int],
                            h0.kings[mov.to as int],
                        );
                        crate::bitboard::lemma_or_zero(
                            h0.kings[mov.from as int] ^ h0.kings[mov.to as int],
                        );
                    }
                    assert(self.hash == base_mover ^ hg_mover(h0, mov, w));
                }
            },
            _ => {
                self.hash = self.hash ^ self.piece_key(mov.piece, mov.from);
                match mov.promoted {
                    Some(promoted) => {
                        match promoted {
                            Piece::Queen | Piece::Knight | Piece::Rook | Piece::Bishop => {
                                self.hash = self.hash ^ self.piece_key(promoted, mov.to);
                            },
                            _ => {},
                        }
                    },
                    None => {
                        self.hash = self.hash ^ self.piece_key(mov.piece, mov.to);
                    },
                }
                proof {
                    let pk = match mov.promoted {
                        Some(pp) => match pp {
                            Piece::Queen | Piece::Knight | Piece::Rook | Piece::Bishop => hkey(
                                h0,
                                pp,
                                mov.to as int,
                            ),
                            _ => 0u64,
                        },
                        None => hkey(h0, mov.piece, mov.to as int),
                    };
                    lemma_chain2(base_mover, hkey(h0, mov.piece, mov.from as int), pk);
                    crate::bitboard::lemma_or_zero(hkey(h0, mov.piece, mov.from as int) ^ pk);
                    crate::bitboard::lemma_or_zero(pk);
                    crate::bitboard::lemma_or_zero(hkey(h0, mov.piece, mov.from as int));
                    assert(self.hash == base_mover ^ hg_mover(h0, mov, w));
                }
            },
        }
        proof {
            assert(self.hash == base_mover ^ hg_mover(h0, mov, w));
        }
    }

    /// The en-passant key toggles of one move: the old file's key leaves and
    /// the new file's key enters when the move creates an opportunity.
    fn xor_ep_keys(&mut self, pos: &Position, mov: Move)
        requires
            mov.from < 64,
            mov.to < 64,
            pos.details.en_passant == 255 || pos.details.en_passant < 8,
        ensures
            final (self).hash == (old(self).hash ^ hg_ep_old(*old(self), *pos)) ^ hg_ep_new(
                *old(self),
                *pos,
                mov,
            ),
            same_keys(*final (self), *old(self)),
    {
        let ghost h0 = *self;
        let w = pos.white_to_move;
        let them = if w {
            pos.black_pieces()
        } else {
            pos.white_pieces()
        };
        let their_pawns = them & pos.pawns();
        let rank2: u64 = if w {
            crate::bitboard::RANK_2
        } else {
            crate::bitboard::RANK_7
        };
        let rank4: u64 = if w {
            crate::bitboard::RANK_4
        } else {
            crate::bitboard::RANK_5
        };
        let from_bb = crate::bitboard::to_bb(mov.from);
        let to_bb = crate::bitboard::to_bb(mov.to);
        if pos.details.en_passant != 255 {
            self.hash = self.hash ^ self.en_passant[pos.details.en_passant as usize];
        }
        proof {
            crate::bitboard::lemma_or_zero(h0.hash);
            assert(self.hash == h0.hash ^ hg_ep_old(h0, *pos));
        }
        let lshift = crate::bitboard::left(their_pawns, 1);
        let rshift = crate::bitboard::right(their_pawns, 1);
        if (pos.pawns() & rank2 & from_bb) != 0 && (rank4 & to_bb) != 0 && ((rshift & to_bb) != 0
            || (lshift & to_bb) != 0) {
            self.hash = self.hash ^ self.en_passant[(mov.from % 8) as usize];
        }
        proof {
            assert(((lshift | rshift) & to_bb != 0) == ((rshift & to_bb) != 0 || (lshift & to_bb)
                != 0)) by (bit_vector);
            crate::bitboard::lemma_or_zero(h0.hash ^ hg_ep_old(h0, *pos));
            assert((h0.hash ^ hg_ep_old(h0, *pos)) ^ hg_ep_new(h0, *pos, mov) == self.hash);
        }
    }

    /// Mirror `mov` into the hash before the position plays it: the same
    /// toggles as `Position::make_move`, each as an XOR of the matching key.
    #[verifier::rlimit(100)]
    pub fn make_move(&mut self, pos: &Position, mov: Move)
        requires
            mov.from < 64,
            mov.to < 64,
            pos.details.en_passant == 255 || pos.details.en_passant < 8,
            pos.details.castling < 16,
            (mov.en_passant ==> (pos.white_to_move ==> mov.to >= 8) && (!pos.white_to_move
                ==> mov.to < 56)),
            (mov.piece is King && mov.to == mov.from + 2 ==> mov.to <= 62),
            (mov.piece is King && mov.from == mov.to + 2 ==> mov.to >= 2),
            (mov.promoted is Some ==> mov.piece is Pawn),
        ensures
            final (self).hash == hash_make_spec(*old(self), *pos, mov),
            same_keys(*final (self), *old(self)),
    {
        let ghost h0 = *self;
        let w = pos.white_to_move;
        self.xor_ep_keys(pos, mov);
        let mut castling = pos.details.castling;
        self.hash = self.hash ^ self.castle[castling as usize];

        self.xor_move_keys(mov, w);

        if mov.piece.index() == 5 {
            if w {
                castling = castling & !(crate::position::CASTLE_WHITE_KSIDE
                    | crate::position::CASTLE_WHITE_QSIDE);
            } else {
                castling = castling & !(crate::position::CASTLE_BLACK_KSIDE
                    | crate::position::CASTLE_BLACK_QSIDE);
            }
        }
        if mov.from == 0 || mov.to == 0 {
            castling = castling & !crate::position::CASTLE_WHITE_QSIDE;
        }
        if mov.from == 7 || mov.to == 7 {
            castling = castling & !crate::position::CASTLE_WHITE_KSIDE;
        }
        if mov.from == 56 || mov.to == 56 {
            castling = castling & !crate::position::CASTLE_BLACK_QSIDE;
        }
        if mov.from == 63 || mov.to == 63 {
            castling = castling & !crate::position::CASTLE_BLACK_KSIDE;
        }
        proof {
            assert(castling == castling_after(*pos, mov));
            lemma_and_le();
            assert(castling < 16);
        }

        let ghost base_color = self.hash;
        if w {
            self.hash = self.hash ^ self.color[mov.to as usize];
            self.hash = self.hash ^ self.color[mov.from as usize];
            proof {
                lemma_chain2(base_color, h0.color[mov.to as int], h0.color[mov.from as int]);
            }
        } else {
            if crate::bitboard::contains(pos.color, mov.to) {
                self.hash = self.hash ^ self.color[mov.to as usize];
            }
        }
        proof {
            crate::bitboard::lemma_or_zero(base_color);
            assert(self.hash == base_color ^ hg_mover_color(h0, *pos, mov, w));
        }
        self.hash = self.hash ^ self.castle[castling as usize];
        self.hash = self.hash ^ self.white_to_move;
    }

    /// Mirror the retraction of `mov` into the hash; `pos` is the position
    /// before `Position::unmake_move` runs and `irreversible_details` the
    /// saved details being restored.
    #[verifier::rlimit(100)]
    pub fn unmake_move(&mut self, pos: &Position, mov: Move, irreversible_details: IrreversibleDetails)
        requires
            mov.from < 64,
            mov.to < 64,
            pos.details.en_passant == 255 || pos.details.en_passant < 8,
            irreversible_details.en_passant == 255 || irreversible_details.en_passant < 8,
            pos.details.castling < 16,
            irreversible_details.castling < 16,
            (mov.en_passant ==> (!pos.white_to_move ==> mov.to >= 8) && (pos.white_to_move
                ==> mov.to < 56)),
            (mov.piece is King && mov.to == mov.from + 2 ==> mov.to <= 62),
            (mov.piece is King && mov.from == mov.to + 2 ==> mov.to >= 2),
            (mov.promoted is Some ==> mov.piece is Pawn),
        ensures
            final (self).hash == hash_unmake_spec(*old(self), *pos, mov, irreversible_details),
            same_keys(*final (self), *old(self)),
    {
        broadcast use crate::bitboard::lemma_xor_zero_auto;

        let ghost h0 = *self;
        self.hash = self.hash ^ self.white_to_move;
        proof {
            crate::bitboard::lemma_or_zero(h0.hash ^ h0.white_to_move);
        }
        if pos.details.en_passant != 255 {
            self.hash = self.hash ^ self.en_passant[pos.details.en_passant as usize];
        }
        proof {
            crate::bitboard::lemma_or_zero((h0.hash ^ h0.white_to_move) ^ hg_ep_old(h0, *pos));
        }
        if irreversible_details.en_passant != 255 {
            self.hash = self.hash ^ self.en_passant[irreversible_details.en_passant as usize];
        }
        self.hash = self.hash ^ self.castle[pos.details.castling as usize];
        self.hash = self.hash ^ self.castle[irreversible_details.castling as usize];
        let unmaking_white_move = !pos.white_to_move;

        let ghost base_color = self.hash;
        if unmaking_white_move {
            self.hash = self.hash ^ self.color[mov.from as usize];
            self.hash = self.hash ^ self.color[mov.to as usize];
            proof {
                lemma_chain2(base_color, h0.color[mov.from as int], h0.color[mov.to as int]);
            }
        } else {
            if crate::bitboard::contains(pos.color, mov.from) {
                self.hash = self.hash ^ self.color[mov.from as usize];
            }
        }
        proof {
            crate::bitboard::lemma_or_zero(base_color);
            assert(self.hash == base_color ^ hg_unmover_color(
                h0,
                *pos,
                mov,
                unmaking_white_move,
            ));
        }

        let ghost base_mover = self.hash;
        match mov.piece {
            Piece::King => {
                self.hash = self.hash ^ self.kings[mov.to as usize];
                self.hash = self.hash ^ self.kings[mov.from as usize];
                if mov.to == mov.from + 2 {
                    self.hash = self.hash ^ self.rooks[(mov.to + 1) as usize];
                    self.hash = self.hash ^ self.rooks[(mov.to - 1) as usize];
                    if unmaking_white_move {
                        self.hash = self.hash ^ self.color[(mov.to + 1) as usize];
                        self.hash = self.hash ^ self.color[(mov.to - 1) as usize];
                    }
                } else if mov.from == mov.to + 2 {
                    self.hash = self.hash ^ self.rooks[(mov.to - 2) as usize];
                    self.hash = self.hash ^ self.rooks[(mov.to + 1) as usize];
                    if unmaking_white_move {
                        self.hash = self.hash ^ self.color[(mov.to - 2) as usize];
                        self.hash = self.hash ^ self.color[(mov.to + 1) as usize];
                    }
                }
                proof {
                    let uw = unmaking_white_move;
                    crate::bitboard::lemma_or_zero(0u64);
                    if is_ks_castle(mov) {
                        lemma_chain_king(
                            base_mover,
                            h0.rooks[mov.to as int + 1],
                            h0.rooks[mov.to as int - 1],
                            if uw {
                                h0.color[mov.to as int + 1]
                            } else {
                                0u64
                            },
                            if uw {
                                h0.color[mov.to as int - 1]
                            } else {
                                0u64
                            },
                            h0.kings[mov.from as int],
                            h0.kings[mov.to as int],
                        );
                        crate::bitboard::lemma_or_zero(
                            (((base_mover ^ h0.kings[mov.to as int]) ^ h0.kings[mov.from as int])
                                ^ h0.rooks[mov.to as int + 1]) ^ h0.rooks[mov.to as int - 1],
                        );
                        crate::bitboard::lemma_or_zero(
                            h0.rooks[mov.to as int + 1] ^ h0.rooks[mov.to as int - 1],
                        );
                    } else if is_qs_castle(mov) {
                        lemma_chain_king(
                            base_mover,
                            h0.rooks[mov.to as int - 2],
                            h0.rooks[mov.to as int + 1],
                            if uw {
                                h0.color[mov.to as int - 2]
                            } else {
                                0u64
                            },
                            if uw {
                                h0.color[mov.to as int + 1]
                            } else {
                                0u64
                            },
                            h0.kings[mov.from as int],
                            h0.kings[mov.to as int],
                        );
                        crate::bitboard::lemma_or_zero(
                            (((base_mover ^ h0.kings[mov.to as int]) ^ h0.kings[mov.from as int])
                                ^ h0.rooks[mov.to as int - 2]) ^ h0.rooks[mov.to as int + 1],
                        );
                        crate::bitboard::lemma_or_zero(
                            h0.rooks[mov.to as int - 2] ^ h0.rooks[mov.to as int + 1],
                        );
                    } else {
                        lemma_chain2(
                            base_mover,
                            h0.kings[mov.to as int],
                            h0.kings[mov.from as int],
                        );
                        crate::bitboard::lemma_or_zero(
                            h0.kings[mov.from as int] ^ h0.kings[mov.to as int],
                        );
                    }
                }
            },
            _ => {
                let promo_key: u64 = match mov.promoted {
                    Some(promoted) => match promoted {
                        Piece::Queen | Piece::Knight | Piece::Rook | Piece::Bishop => self
                            .piece_key(promoted, mov.to),
                        _ => 0,
                    },
                    None => self.piece_key(mov.piece, mov.to),
                };
                self.hash = self.hash ^ self.piece_key(mov.piece, mov.from);
                self.hash = self.hash ^ promo_key;
                proof {
                    lemma_chain2(base_mover, hkey(h0, mov.piece, mov.from as int), promo_key);
                    crate::bitboard::lemma_or_zero(
                        hkey(h0, mov.piece, mov.from as int) ^ promo_key,
                    );
                    crate::bitboard::lemma_or_zero(promo_key);
                    assert(promo_key == (match mov.promoted {
                        Some(pp) => match pp {
                            Piece::Queen | Piece::Knight | Piece::Rook | Piece::Bishop => hkey(
                                h0,
                                pp,
                                mov.to as int,
                            ),
                            _ => 0u64,
                        },
                        None => hkey(h0, mov.piece, mov.to as int),
                    }));
                    assert(self.hash == base_mover ^ hg_mover(h0, mov, !pos.white_to_move));
                }
            },
        }
        proof {
            assert(self.hash == base_mover ^ hg_mover(h0, mov, unmaking_white_move));
        }

        let ghost base_cap = self.hash;
        match mov.captured {
            Some(piece) => {
                if mov.en_passant {
                    let victim: u8 = if unmaking_white_move {
                        mov.to - 8
                    } else {
                        mov.to + 8
                    };
                    self.hash = self.hash ^ self.pawns[victim as usize];
                    if !unmaking_white_move {
                        self.hash = self.hash ^ self.color[victim as usize];
                    }
                    proof {
                        lemma_chain2(
                            base_cap,
                            h0.pawns[ep_victim(unmaking_white_move, mov.to as int)],
                            h0.color[ep_victim(unmaking_white_move, mov.to as int)],
                        );
                    }
                } else {
                    match piece {
                        Piece::King => {},
                        _ => {
                            self.hash = self.hash ^ self.piece_key(piece, mov.to);
                            if !unmaking_white_move {
                                self.hash = self.hash ^ self.color[mov.to as usize];
                            }
                            proof {
                                lemma_chain2(
                                    base_cap,
                                    hkey(h0, piece, mov.to as int),
                                    h0.color[mov.to as int],
                                );
                            }
                        },
                    }
                }
            },
            None => {},
        }
        proof {
            crate::bitboard::lemma_or_zero(base_cap);
            assert(self.hash == base_cap ^ hg_uncapture(h0, mov, unmaking_white_move));
        }
    }

    /// Mirror a null move into the hash: the side key flips and any
    /// en-passant key leaves.
    pub fn make_nullmove(&mut self, pos: &Position)
        requires
            pos.details.en_passant == 255 || pos.details.en_passant < 8,
        ensures
            final (self).hash == (old(self).hash ^ old(self).white_to_move) ^ hg_ep_old(
                *old(self),
                *pos,
            ),
            same_keys(*final (self), *old(self)),
    {
        broadcast use crate::bitboard::lemma_xor_zero_auto;

        self.hash = self.hash ^ self.white_to_move;
        if pos.details.en_passant != 255 {
            self.hash = self.hash ^ self.en_passant[pos.details.en_passant as usize];
        }
    }

    /// Mirror the retraction of a null move into the hash; `pos` is the
    /// position before `Position::unmake_nullmove` runs.
    pub fn unmake_nullmove(&mut self, pos: &Position, irreversible_details: IrreversibleDetails)
        requires
            pos.details.en_passant == 255 || pos.details.en_passant < 8,
            irreversible_details.en_passant == 255 || irreversible_details.en_passant < 8,
            pos.details.castling < 16,
            irreversible_details.castling < 16,
        ensures
            final (self).hash == ((((old(self).hash ^ old(self).white_to_move) ^ hg_ep_old(
                *old(self),
                *pos,
            )) ^ (if irreversible_details.en_passant != 255 {
                old(self).en_passant[irreversible_details.en_passant as int]
            } else {
                0u64
            })) ^ old(self).castle[pos.details.castling as int]) ^ old(self).castle[
                irreversible_details.castling as int],
            same_keys(*final (self), *old(self)),
    {
        broadcast use crate::bitboard::lemma_xor_zero_auto;

        self.hash = self.hash ^ self.white_to_move;
        if pos.details.en_passant != 255 {
            self.hash = self.hash ^ self.en_passant[pos.details.en_passant as usize];
        }
        if irreversible_details.en_passant != 255 {
            self.hash = self.hash ^ self.en_passant[irreversible_details.en_passant as usize];
        }
        self.hash = self.hash ^ self.castle[pos.details.castling as usize];
        self.hash = self.hash ^ self.castle[irreversible_details.castling as usize];
    }
}

} // verus!
