//! Bitboard primitives: a 64-bit set of squares with shift helpers that mask
//! out bits wrapping around the board edges, population count, and iteration
//! over the set squares in ascending index order.
//!
//! Square indices run 0..64 with file = index % 8 and rank = index / 8;
//! square 0 is a1 and square 63 is h8.
use vstd::prelude::*;
use vstd::std_specs::bits::u64_trailing_zeros;

verus! {

/// A bitboard: bit k set means square k is occupied (a1 = 0, h8 = 63).
pub type Bitboard = u64;

/// A square index in 0..64 (a1 = 0, b1 = 1, ..., h8 = 63).
pub type Square = u8;

pub const FILE_A: u64 = 0x0101_0101_0101_0101;
pub const FILE_H: u64 = 0x8080_8080_8080_8080;
pub const RANK_1: u64 = 0x0000_0000_0000_00FF;
pub const RANK_2: u64 = 0x0000_0000_0000_FF00;
pub const RANK_3: u64 = 0x0000_0000_00FF_0000;
pub const RANK_4: u64 = 0x0000_0000_FF00_0000;
pub const RANK_5: u64 = 0x0000_00FF_0000_0000;
pub const RANK_6: u64 = 0x0000_FF00_0000_0000;
pub const RANK_7: u64 = 0x00FF_0000_0000_0000;
pub const RANK_8: u64 = 0xFF00_0000_0000_0000;

pub open spec fn file_of(sq: int) -> int {
    sq % 8
}

pub open spec fn rank_of(sq: int) -> int {
    sq / 8
}

/// The singleton bitboard of a square.
pub open spec fn bit(sq: int) -> u64 {
    1u64 << sq
}

/// Whether square `sq` is a member of bitboard `b`.
pub open spec fn has(b: u64, sq: int) -> bool {
    b & (1u64 << sq) != 0
}

/// The bitboard of all squares whose file index is below `n`
/// (`n` leftmost files, counted from file a).
pub open spec fn low_files(n: int) -> u64 {
    if n <= 0 {
        0u64
    } else if n == 1 {
        0x0101_0101_0101_0101u64
    } else if n == 2 {
        0x0303_0303_0303_0303u64
    } else if n == 3 {
        0x0707_0707_0707_0707u64
    } else if n == 4 {
        0x0F0F_0F0F_0F0F_0F0Fu64
    } else if n == 5 {
        0x1F1F_1F1F_1F1F_1F1Fu64
    } else if n == 6 {
        0x3F3F_3F3F_3F3F_3F3Fu64
    } else if n == 7 {
        0x7F7F_7F7F_7F7F_7F7Fu64
    } else {
        0xFFFF_FFFF_FFFF_FFFFu64
    }
}

/// Shift towards the h-file by `n` files; bits whose file index is
/// `8 - n` or more would wrap to the next rank and are cleared first.
pub open spec fn shift_right(b: u64, n: int) -> u64 {
    (b & low_files(8 - n)) << (n as u64)
}

/// Shift towards the a-file by `n` files; bits whose file index is
/// below `n` would wrap to the previous rank and are cleared first.
pub open spec fn shift_left(b: u64, n: int) -> u64 {
    (b & !low_files(n)) >> (n as u64)
}

/// Shift by `n` ranks towards the mover's opponent: up for White, down for Black.
pub open spec fn shift_forward(white: bool, b: u64, n: int) -> u64 {
    if white {
        b << (8 * n) as u64
    } else {
        b >> (8 * n) as u64
    }
}

/// Shift by `n` ranks towards the mover's own side: down for White, up for Black.
pub open spec fn shift_backward(white: bool, b: u64, n: int) -> u64 {
    shift_forward(!white, b, n)
}


/// The single-step facts the population-count lemmas induct with: halving,
/// clearing the lowest bit, and the per-bit behaviour of the operators, all
/// at the given values.
pub proof fn lemma_bit_step(a: u64, b: u64, s: u64)
    by (bit_vector)
    ensures
        b != 0 ==> (b & ((b - 1) as u64)) < b,
        b & 1 == 1 ==> (b & ((b - 1) as u64)) == ((2 * (b / 2)) as u64) && b / 2
            < 0x8000_0000_0000_0000,
        (b & 1 != 1 && b != 0) ==> b / 2 != 0 && (b & ((b - 1) as u64)) & 1 != 1 && (b & ((b
            - 1) as u64)) / 2 == (b / 2) & (((b / 2) - 1) as u64),
        b < 0x8000_0000_0000_0000 ==> ((2 * b) as u64) & 1 != 1 && ((2 * b) as u64) / 2 == b,
        (a & b) / 2 == (a / 2) & (b / 2) && ((a & b) & 1 == 1 ==> b & 1 == 1) && ((a & b) & 1
            == 1 ==> a & 1 == 1),
        (a | b) / 2 == (a / 2) | (b / 2) && ((a | b) & 1 == 1 ==> (a & 1 == 1 || b & 1 == 1)),
        a & 1 == 1 ==> a != 0,
        b & 1 == 1 ==> b != 0,
        a & 0 == 0 && 0 & a == 0 && a | 0 == a && a ^ 0 == a,
        0 < s < 64 ==> (1u64 << s) & 1 != 1 && (1u64 << s) / 2 == 1u64 << ((s - 1) as u64) && (
        1u64 << s) != 0,
        (1u64 << 0u64) == 1u64 && 1u64 & 1 == 1,
        ((s >= 64 || b < (1u64 << s)) && s >= 1) ==> (s - 1 >= 64 || b / 2 < (1u64 << ((s
            - 1) as u64))),
{
}

/// Number of set bits.
pub open spec fn popcnt(b: u64) -> nat
    decreases b,
{
    if b == 0 {
        0
    } else {
        (if b & 1 == 1 {
            1nat
        } else {
            0nat
        }) + popcnt(b / 2)
    }
}

/// The set squares of a bitboard, in ascending index order.
pub open spec fn sq_list(b: u64) -> Seq<u64>
    decreases b via sq_list_decreases
{
    if b == 0 {
        Seq::empty()
    } else {
        seq![u64_trailing_zeros(b) as u64] + sq_list(b & ((b - 1) as u64))
    }
}

#[via_fn]
proof fn sq_list_decreases(b: u64) {
    lemma_bit_step(b, b, 0);
}

pub fn file(sq: Square) -> (r: u8)
    requires
        sq < 64,
    ensures
        r == file_of(sq as int),
        r < 8,
{
    sq % 8
}

pub fn rank(sq: Square) -> (r: u8)
    requires
        sq < 64,
    ensures
        r == rank_of(sq as int),
        r < 8,
{
    sq / 8
}

pub fn file_rank(f: u8, r: u8) -> (sq: Square)
    requires
        f < 8,
        r < 8,
    ensures
        sq == r * 8 + f,
        sq < 64,
        file_of(sq as int) == f,
        rank_of(sq as int) == r,
{
    r * 8 + f
}

pub fn to_bb(sq: Square) -> (r: u64)
    requires
        sq < 64,
    ensures
        r == bit(sq as int),
{
    1u64 << sq
}

pub fn low_files_mask(n: u8) -> (r: u64)
    requires
        n <= 8,
    ensures
        r == low_files(n as int),
{
    if n == 0 {
        0
    } else if n == 1 {
        0x0101_0101_0101_0101
    } else if n == 2 {
        0x0303_0303_0303_0303
    } else if n == 3 {
        0x0707_0707_0707_0707
    } else if n == 4 {
        0x0F0F_0F0F_0F0F_0F0F
    } else if n == 5 {
        0x1F1F_1F1F_1F1F_1F1F
    } else if n == 6 {
        0x3F3F_3F3F_3F3F_3F3F
    } else if n == 7 {
        0x7F7F_7F7F_7F7F_7F7F
    } else {
        0xFFFF_FFFF_FFFF_FFFF
    }
}

pub fn left(b: u64, n: u8) -> (r: u64)
    requires
        n <= 8,
    ensures
        r == shift_left(b, n as int),
{
    let masked = b & !low_files_mask(n);
    if n == 8 {
        assert((b & !low_files(8)) >> 8u64 == 0) by (bit_vector);
        0
    } else {
        masked >> n
    }
}

pub fn right(b: u64, n: u8) -> (r: u64)
    requires
        n <= 8,
    ensures
        r == shift_right(b, n as int),
{
    if n == 8 {
        assert((b & low_files(0)) << 8u64 == 0) by (bit_vector);
        0
    } else {
        let masked = b & low_files_mask(8 - n);
        masked << n
    }
}

pub fn forward(white: bool, b: u64, n: u8) -> (r: u64)
    requires
        n <= 7,
    ensures
        r == shift_forward(white, b, n as int),
{
    if white {
        b << 8 * n
    } else {
        b >> 8 * n
    }
}

pub fn backward(white: bool, b: u64, n: u8) -> (r: u64)
    requires
        n <= 7,
    ensures
        r == shift_backward(white, b, n as int),
{
    forward(!white, b, n)
}

pub fn is_empty(b: u64) -> (r: bool)
    ensures
        r == (b == 0),
{
    b == 0
}

pub fn at_least_one(b: u64) -> (r: bool)
    ensures
        r == (b != 0),
{
    b != 0
}

pub fn more_than_one(b: u64) -> (r: bool)
    ensures
        r == (popcnt(b) > 1),
{
    proof {
        lemma_clear_lowest_bit(b);
        if b != 0 {
            lemma_popcnt_zero(b & ((b - 1) as u64));
            lemma_popcnt_zero(b);
        }
    }
    b != 0 && (b & (b - 1)) != 0
}

/// Zero is the identity of union and symmetric difference.
pub proof fn lemma_or_zero(a: u64)
    by (bit_vector)
    ensures
        a | 0 == a,
        0 | a == a,
        a ^ 0 == a,
        a & 0 == 0,
{
}

/// A bitboard is empty exactly when its population count is zero.
#[verifier::rlimit(100)]
pub proof fn lemma_popcnt_zero(b: u64)
    ensures
        popcnt(b) == 0 <==> b == 0,
    decreases b,
{
    if b != 0 {
        lemma_bit_step(b, b, 0);
        if b & 1 != 1 {
            lemma_popcnt_zero(b / 2);
        }
    }
}

/// Whether bitboard `b` contains square `sq`.
pub fn contains(b: u64, sq: Square) -> (r: bool)
    requires
        sq < 64,
    ensures
        r == has(b, sq as int),
{
    b & (1u64 << sq) != 0
}

pub fn popcount(b: u64) -> (r: u32)
    ensures
        r == popcnt(b),
{
    let mut rest: u64 = b;
    let mut count: u32 = 0;
    proof {
        lemma_popcnt_le_64(b);
    }
    while rest != 0
        invariant
            count + popcnt(rest) == popcnt(b),
            popcnt(b) <= 64,
        decreases rest,
    {
        proof {
            lemma_clear_lowest_bit(rest);
            lemma_popcnt_le_64(rest);
        }
        count = count + 1;
        rest = rest & (rest - 1);
    }
    count
}

/// The set squares of `b`, in ascending order.
pub fn squares(b: u64) -> (r: Vec<Square>)
    ensures
        r@.map_values(|s: Square| s as u64) == sq_list(b),
        forall|i: int| 0 <= i < r@.len() ==> r@[i] < 64,
{
    let mut rest: u64 = b;
    let mut out: Vec<Square> = Vec::new();
    while rest != 0
        invariant
            out@.map_values(|s: Square| s as u64) + sq_list(rest) == sq_list(b),
            forall|i: int| 0 <= i < out@.len() ==> out@[i] < 64,
        decreases rest,
    {
        proof {
            lemma_clear_lowest_bit(rest);
            vstd::std_specs::bits::axiom_u64_trailing_zeros(rest);
        }
        let ghost prev = out@;
        let sq = rest.trailing_zeros() as u8;
        out.push(sq);
        rest = rest & (rest - 1);
        proof {
            assert(out@.map_values(|s: Square| s as u64) =~= prev.map_values(|s: Square| s as u64)
                + seq![sq as u64]) by {
                assert(out@ =~= prev + seq![sq]);
            }
            assert(out@.map_values(|s: Square| s as u64) + sq_list(rest) =~= sq_list(b));
        }
    }
    out
}

/// Clearing the lowest set bit decreases the value and the population count.
#[verifier::rlimit(100)]
pub proof fn lemma_clear_lowest_bit(b: u64)
    ensures
        b != 0 ==> (b & ((b - 1) as u64)) < b,
        b != 0 ==> popcnt(b & ((b - 1) as u64)) == popcnt(b) - 1,
{
    lemma_bit_step(b, b, 0);
    if b != 0 {
        lemma_popcnt_clear_lowest(b);
    }
}

#[verifier::rlimit(100)]
proof fn lemma_popcnt_clear_lowest(b: u64)
    requires
        b != 0,
    ensures
        popcnt(b & ((b - 1) as u64)) == popcnt(b) - 1,
    decreases b,
{
    lemma_bit_step(b, b, 0);
    if b & 1 == 1 {
        lemma_popcnt_even(b / 2);
    } else {
        lemma_popcnt_clear_lowest(b / 2);
    }
}

#[verifier::rlimit(100)]
proof fn lemma_popcnt_even(h: u64)
    requires
        h < 0x8000_0000_0000_0000,
    ensures
        popcnt((2 * h) as u64) == popcnt(h),
{
    let dbl = (2 * h) as u64;
    lemma_bit_step(h, h, 0);
    if dbl != 0 {
        assert(popcnt(dbl) == popcnt(h));
    }
}

pub proof fn lemma_popcnt_le_64(b: u64)
    ensures
        popcnt(b) <= 64,
{
    lemma_popcnt_bound(b, 64);
}

proof fn lemma_popcnt_bound(b: u64, w: u64)
    requires
        w >= 64 || b < (1u64 << w),
    ensures
        popcnt(b) <= w,
    decreases w,
{
    lemma_bit_step(b, b, w);
    if b == 0 {
    } else if w == 0 {
        assert(false);
    } else {
        lemma_popcnt_bound(b / 2, (w - 1) as u64);
    }
}

/// Population count is monotone under intersection, on either side.
pub proof fn lemma_popcnt_and_le(a: u64, b: u64)
    ensures
        popcnt(a & b) <= popcnt(b),
        popcnt(a & b) <= popcnt(a),
    decreases a, b,
{
    lemma_bit_step(a, b, 0);
    if a == 0 && b == 0 {
    } else {
        lemma_popcnt_and_le(a / 2, b / 2);
    }
}

/// Population count is subadditive over union.
#[verifier::rlimit(100)]
pub proof fn lemma_popcnt_or_le(a: u64, b: u64)
    ensures
        popcnt(a | b) <= popcnt(a) + popcnt(b),
    decreases a, b,
{
    lemma_bit_step(a, b, 0);
    if a == 0 && b == 0 {
    } else {
        lemma_popcnt_or_le(a / 2, b / 2);
    }
}

/// A single-bit bitboard has population count one.
#[verifier::rlimit(100)]
pub proof fn lemma_popcnt_single(sq: u64)
    requires
        sq < 64,
    ensures
        popcnt(1u64 << sq) == 1,
    decreases sq,
{
    lemma_bit_step(0, 0, sq);
    if sq == 0 {
        reveal_with_fuel(popcnt, 2);
        assert(popcnt(1) == 1);
    } else {
        lemma_popcnt_single((sq - 1) as u64);
    }
}

/// Every entry of `sq_list(b)` is a square of `b`, below 64.
pub proof fn lemma_sq_list_members(b: u64)
    ensures
        forall|i: int|
            0 <= i < sq_list(b).len() ==> sq_list(b)[i] < 64 && has(b, sq_list(b)[i] as int),
        sq_list(b).len() == popcnt(b),
    decreases b,
{
    if b == 0 {
    } else {
        lemma_clear_lowest_bit(b);
        let rest = b & ((b - 1) as u64);
        lemma_sq_list_members(rest);
        let t = u64_trailing_zeros(b);
        vstd::std_specs::bits::axiom_u64_trailing_zeros(b);
        assert(t < 64);
        assert(b & (1u64 << (t as u64)) != 0) by (bit_vector)
            requires
                t < 64 && (b >> (t as u64)) & 1 == 1,
        ;
        assert(forall|s: u64|
            s < 64 && has(rest, s as int) ==> has(b, s as int)) by {
            assert(forall|s: u64|
                s < 64 && (b & ((b - 1) as u64)) & (1u64 << s) != 0 ==> b & (1u64 << s) != 0)
                by (bit_vector);
        }
    }
}


/// Pointwise view of the bitwise operators: membership of a square in a
/// combined bitboard is decided by its membership in the operands.
pub proof fn lemma_bit_index(a: u64, b: u64, s: u64)
    by (bit_vector)
    requires
        s < 64,
    ensures
        (a & (1u64 << s) != 0) == ((a >> s) & 1 == 1),
        ((a ^ b) & (1u64 << s) != 0) == ((a & (1u64 << s) != 0) != (b & (1u64 << s) != 0)),
        ((a | b) & (1u64 << s) != 0) == ((a & (1u64 << s) != 0) || (b & (1u64 << s) != 0)),
        ((a & b) & (1u64 << s) != 0) == ((a & (1u64 << s) != 0) && (b & (1u64 << s) != 0)),
        ((!a) & (1u64 << s) != 0) == !(a & (1u64 << s) != 0),
{
}

/// Membership in a singleton bitboard.
pub proof fn lemma_bit_single(t: u64, s: u64)
    by (bit_vector)
    requires
        s < 64,
        t < 64,
    ensures
        ((1u64 << t) & (1u64 << s) != 0) == (s == t),
{
}

/// Two bitboards with the same members are equal.
pub proof fn lemma_bb_ext(a: u64, b: u64)
    requires
        forall|s: u64| s < 64 ==> (a & (1u64 << s) != 0) == (b & (1u64 << s) != 0),
    ensures
        a == b,
{
    if a != b {
        let d = a ^ b;
        assert(d != 0) by (bit_vector)
            requires
                a != b && d == a ^ b,
        ;
        vstd::std_specs::bits::axiom_u64_trailing_zeros(d);
        let t = u64_trailing_zeros(d) as u64;
        assert((a & (1u64 << t) != 0) != (b & (1u64 << t) != 0)) by (bit_vector)
            requires
                t < 64 && ((a ^ b) >> t) & 1 == 1,
        ;
    }
}

/// Symmetric difference is associative and commutative.
pub proof fn lemma_xor_algebra(a: u64, b: u64, c: u64)
    by (bit_vector)
    ensures
        (a ^ b) ^ c == a ^ (b ^ c),
        a ^ b == b ^ a,
{
}


/// Zero is the identity of symmetric difference (ambient form).
pub broadcast proof fn lemma_xor_zero_auto(x: u64)
    ensures
        #[trigger] (x ^ 0) == x,
{
    lemma_or_zero(x);
}

/// Toggling four sets twice restores the original bitboard.
pub proof fn lemma_xor_roundtrip(x: u64, a: u64, b: u64, c: u64, d: u64)
    by (bit_vector)
    ensures
        ((((((((x ^ a) ^ b) ^ c) ^ d) ^ a) ^ b) ^ c) ^ d) == x,
{
}


/// Toggling three sets and then the same three in rotated order restores the
/// original bitboard.
pub proof fn lemma_xor_roundtrip_rot(x: u64, a: u64, b: u64, c: u64)
    by (bit_vector)
    ensures
        ((((((x ^ a) ^ b) ^ c) ^ c) ^ a) ^ b) == x,
{
}


/// The lowest set square of a bitboard (64 when empty).
pub open spec fn u64_tz(b: u64) -> u32 {
    u64_trailing_zeros(b)
}

} // verus!
