//! Sliding-piece attacks.
//!
//! The meaning of a bishop or rook attack set is given by `bishop_rays` /
//! `rook_rays`: a walk along each ray direction that includes every square up
//! to and including the first occupied one.  The executable fast path looks
//! the attack set up in a magic table (`AttackTables`); its well-formedness
//! invariant states that every lookup returns exactly the ray attack set.
use vstd::prelude::*;
use crate::bitboard::{
    bit, file_of, has, lemma_popcnt_or_le, lemma_popcnt_single, popcnt, rank_of, to_bb, contains,
    Square, FILE_A, FILE_H, RANK_1, RANK_8,
};

verus! {

pub open spec fn on_board(f: int, r: int) -> bool {
    0 <= f < 8 && 0 <= r < 8
}

/// The squares reached from (f, r) walking in direction (df, dr): every step
/// square is included, and the walk stops after the first occupied square.
pub open spec fn ray(f: int, r: int, df: int, dr: int, occ: u64, fuel: nat) -> u64
    decreases fuel,
{
    if fuel == 0 {
        0u64
    } else {
        let nf = f + df;
        let nr = r + dr;
        if !on_board(nf, nr) {
            0u64
        } else {
            bit(nr * 8 + nf) | (if has(occ, nr * 8 + nf) {
                0u64
            } else {
                ray(nf, nr, df, dr, occ, (fuel - 1) as nat)
            })
        }
    }
}

/// Diagonal ray attacks from `sq` through occupancy `occ`.
pub open spec fn bishop_rays(sq: int, occ: u64) -> u64 {
    let f = file_of(sq);
    let r = rank_of(sq);
    ray(f, r, 1, 1, occ, 7) | ray(f, r, 1, -1, occ, 7) | ray(f, r, -1, 1, occ, 7) | ray(
        f,
        r,
        -1,
        -1,
        occ,
        7,
    )
}

/// Horizontal and vertical ray attacks from `sq` through occupancy `occ`.
pub open spec fn rook_rays(sq: int, occ: u64) -> u64 {
    let f = file_of(sq);
    let r = rank_of(sq);
    ray(f, r, 1, 0, occ, 7) | ray(f, r, -1, 0, occ, 7) | ray(f, r, 0, 1, occ, 7) | ray(
        f,
        r,
        0,
        -1,
        occ,
        7,
    )
}

/// One step of the executable ray walk, mirroring `ray`.
fn ray_attacks(f: i8, r: i8, df: i8, dr: i8, occ: u64, fuel: u8) -> (res: u64)
    requires
        0 <= f < 8,
        0 <= r < 8,
        -1 <= df <= 1,
        -1 <= dr <= 1,
    ensures
        res == ray(f as int, r as int, df as int, dr as int, occ, fuel as nat),
    decreases fuel,
{
    if fuel == 0 {
        return 0;
    }
    let nf = f + df;
    let nr = r + dr;
    if nf < 0 || nf > 7 || nr < 0 || nr > 7 {
        return 0;
    }
    let nsq: u8 = (nr * 8 + nf) as u8;
    let b = to_bb(nsq);
    if contains(occ, nsq) {
        proof {
            crate::bitboard::lemma_or_zero(b);
        }
        b
    } else {
        b | ray_attacks(nf, nr, df, dr, occ, fuel - 1)
    }
}

/// Ray-walk computation of the bishop attack set, used to build the tables.
pub fn bishop_attacks_slow(sq: Square, occ: u64) -> (res: u64)
    requires
        sq < 64,
    ensures
        res == bishop_rays(sq as int, occ),
{
    let f = (sq % 8) as i8;
    let r = (sq / 8) as i8;
    ray_attacks(f, r, 1, 1, occ, 7) | ray_attacks(f, r, 1, -1, occ, 7) | ray_attacks(
        f,
        r,
        -1,
        1,
        occ,
        7,
    ) | ray_attacks(f, r, -1, -1, occ, 7)
}

/// Ray-walk computation of the rook attack set, used to build the tables.
pub fn rook_attacks_slow(sq: Square, occ: u64) -> (res: u64)
    requires
        sq < 64,
    ensures
        res == rook_rays(sq as int, occ),
{
    let f = (sq % 8) as i8;
    let r = (sq / 8) as i8;
    ray_attacks(f, r, 1, 0, occ, 7) | ray_attacks(f, r, -1, 0, occ, 7) | ray_attacks(
        f,
        r,
        0,
        1,
        occ,
        7,
    ) | ray_attacks(f, r, 0, -1, occ, 7)
}

/// How many steps fit on the board from (f, r) in direction (df, dr).
pub open spec fn edge_dist(f: int, r: int, df: int, dr: int) -> int {
    let fd = if df > 0 {
        7 - f
    } else if df < 0 {
        f
    } else {
        7
    };
    let rd = if dr > 0 {
        7 - r
    } else if dr < 0 {
        r
    } else {
        7
    };
    if fd <= rd {
        fd
    } else {
        rd
    }
}

/// A ray has at most as many squares as steps fit on the board.
pub proof fn lemma_ray_popcnt(f: int, r: int, df: int, dr: int, occ: u64, fuel: nat)
    requires
        on_board(f, r),
        -1 <= df <= 1,
        -1 <= dr <= 1,
        df != 0 || dr != 0,
    ensures
        popcnt(ray(f, r, df, dr, occ, fuel)) <= fuel,
        popcnt(ray(f, r, df, dr, occ, fuel)) <= edge_dist(f, r, df, dr),
    decreases fuel,
{
    if fuel == 0 {
    } else {
        let nf = f + df;
        let nr = r + dr;
        if !on_board(nf, nr) {
        } else {
            let nsq = nr * 8 + nf;
            lemma_popcnt_single(nsq as u64);
            assert(bit(nsq) == 1u64 << (nsq as u64));
            if has(occ, nsq) {
                crate::bitboard::lemma_or_zero(bit(nsq));
            } else {
                lemma_ray_popcnt(nf, nr, df, dr, occ, (fuel - 1) as nat);
                lemma_popcnt_or_le(bit(nsq), ray(nf, nr, df, dr, occ, (fuel - 1) as nat));
            }
        }
    }
}

/// A bishop attacks at most 13 squares.
pub proof fn lemma_bishop_rays_popcnt(sq: int, occ: u64)
    requires
        0 <= sq < 64,
    ensures
        popcnt(bishop_rays(sq, occ)) <= 13,
{
    let f = file_of(sq);
    let r = rank_of(sq);
    lemma_ray_popcnt(f, r, 1, 1, occ, 7);
    lemma_ray_popcnt(f, r, 1, -1, occ, 7);
    lemma_ray_popcnt(f, r, -1, 1, occ, 7);
    lemma_ray_popcnt(f, r, -1, -1, occ, 7);
    let a = ray(f, r, 1, 1, occ, 7);
    let b = ray(f, r, 1, -1, occ, 7);
    let c = ray(f, r, -1, 1, occ, 7);
    let d = ray(f, r, -1, -1, occ, 7);
    lemma_popcnt_or_le(a, b);
    lemma_popcnt_or_le(a | b, c);
    lemma_popcnt_or_le(a | b | c, d);
}

/// A rook attacks at most 14 squares.
pub proof fn lemma_rook_rays_popcnt(sq: int, occ: u64)
    requires
        0 <= sq < 64,
    ensures
        popcnt(rook_rays(sq, occ)) <= 14,
{
    let f = file_of(sq);
    let r = rank_of(sq);
    lemma_ray_popcnt(f, r, 1, 0, occ, 7);
    lemma_ray_popcnt(f, r, -1, 0, occ, 7);
    lemma_ray_popcnt(f, r, 0, 1, occ, 7);
    lemma_ray_popcnt(f, r, 0, -1, occ, 7);
    let a = ray(f, r, 1, 0, occ, 7);
    let b = ray(f, r, -1, 0, occ, 7);
    let c = ray(f, r, 0, 1, occ, 7);
    let d = ray(f, r, 0, -1, occ, 7);
    lemma_popcnt_or_le(a, b);
    lemma_popcnt_or_le(a | b, c);
    lemma_popcnt_or_le(a | b | c, d);
}

/// The board-edge squares.
pub const BORDER: u64 = FILE_A | FILE_H | RANK_1 | RANK_8;

pub open spec fn file_bb(f: int) -> u64 {
    FILE_A << (f as u64)
}

pub open spec fn rank_bb(r: int) -> u64 {
    RANK_1 << ((8 * r) as u64)
}


/// Shifting the a-file right lands exactly on the file's bitboard: no bits
/// fall off the wrap mask.
pub proof fn lemma_file_bb_shift(f: u8)
    by (bit_vector)
    requires
        f < 8,
    ensures
        (crate::bitboard::FILE_A & crate::bitboard::low_files(8 - f)) << (f as u64)
            == crate::bitboard::FILE_A << (f as u64),
{
}

/// The relevant occupancy mask of a bishop: its empty-board rays, borders excluded.
pub open spec fn bishop_relevant(sq: int) -> u64 {
    bishop_rays(sq, 0) & !BORDER
}

/// The relevant occupancy mask of a rook: its file without the first and last
/// rank, symmetric-differenced with its rank without the a- and h-files.
pub open spec fn rook_relevant(sq: int) -> u64 {
    (file_bb(file_of(sq)) & !(RANK_1 | RANK_8)) ^ (rank_bb(rank_of(sq)) & !(FILE_A | FILE_H))
}

pub fn bishop_mask(sq: Square) -> (r: u64)
    requires
        sq < 64,
    ensures
        r == bishop_relevant(sq as int),
{
    bishop_attacks_slow(sq, 0) & !BORDER
}

pub fn rook_mask(sq: Square) -> (res: u64)
    requires
        sq < 64,
    ensures
        res == rook_relevant(sq as int),
{
    let f = sq % 8;
    let r = sq / 8;
    (FILE_A << f & !(RANK_1 | RANK_8)) ^ (RANK_1 << (8 * r) & !(FILE_A | FILE_H))
}



/// The top byte of a magic factor carries the shift amount; a trial factor
/// has its whole top byte replaced so every candidate indexes with the
/// intended width.
pub const SHIFT_MASK: u64 = 0xFF_00_00_00_00_00_00_00;

/// Total number of attack-table slots shared by bishops and rooks.
pub const TABLE_SIZE: usize = 156_800;

/// Per-square magic lookup data. The index of an occupancy is
/// `offset + ((occ & mask) * magic) >> (magic >> 56)`.
#[derive(Clone, Copy)]
pub struct Magic {
    pub magic: u64,
    pub mask: u64,
    pub offset: u32,
}

/// The slot inside a square's slab that an occupancy maps to.
pub open spec fn slot_of(m: Magic, occ: u64) -> u64 {
    vstd::wrapping::u64_specs::wrapping_mul(occ & m.mask, m.magic) >> (m.magic >> 56)
}

/// The number of slots a magic entry can address.
pub open spec fn slab_width(m: Magic) -> u64 {
    1u64 << ((64 - (m.magic >> 56)) as u64)
}

/// A magic entry resolves every subset of its mask to the ray attack set that
/// the table stores for it.
pub open spec fn entry_wf(e: Magic, sq: int, table: Seq<u64>, bishop: bool) -> bool {
    &&& e.mask == if bishop {
        bishop_relevant(sq)
    } else {
        rook_relevant(sq)
    }
    &&& 49 <= (e.magic >> 56) < 64
    &&& e.offset + slab_width(e) <= table.len()
    &&& forall|occ: u64|
        occ & e.mask == occ ==> #[trigger] slot_of(e, occ) < slab_width(e) && table[e.offset
            + slot_of(e, occ)] == if bishop {
            bishop_rays(sq, occ)
        } else {
            rook_rays(sq, occ)
        }
}

/// The shared magic attack tables for bishops and rooks.
pub struct AttackTables {
    pub table: Vec<u64>,
    pub bishop: Vec<Magic>,
    pub rook: Vec<Magic>,
}

impl AttackTables {
    pub open spec fn wf(&self) -> bool {
        &&& self.table@.len() == TABLE_SIZE
        &&& self.bishop@.len() == 64
        &&& self.rook@.len() == 64
        &&& forall|sq: int|
            0 <= sq < 64 ==> entry_wf(#[trigger] self.bishop@[sq], sq, self.table@, true)
        &&& forall|sq: int|
            0 <= sq < 64 ==> entry_wf(#[trigger] self.rook@[sq], sq, self.table@, false)
    }
}

/// The bishop attack set that the tables return: the diagonal rays through
/// the occupancy restricted to the relevant mask.
pub open spec fn bishop_att(sq: int, occ: u64) -> u64 {
    bishop_rays(sq, occ & bishop_relevant(sq))
}

/// The rook attack set that the tables return.
pub open spec fn rook_att(sq: int, occ: u64) -> u64 {
    rook_rays(sq, occ & rook_relevant(sq))
}

proof fn lemma_and_mask_idem(a: u64, m: u64)
    by (bit_vector)
    ensures
        (a & m) & m == a & m,
{
}

/// Magic lookup of the bishop attack set from `from` through `blockers`.
pub fn get_bishop_attacks_from(t: &AttackTables, from: Square, blockers: u64) -> (r: u64)
    requires
        t.wf(),
        from < 64,
    ensures
        r == bishop_att(from as int, blockers),
        popcnt(r) <= 13,
{
    let e = t.bishop[from as usize];
    let occ = blockers & e.mask;
    proof {
        lemma_and_mask_idem(blockers, e.mask);
        lemma_bishop_rays_popcnt(from as int, occ);
        assert(entry_wf(e, from as int, t.table@, true));
        assert(slot_of(e, occ) < slab_width(e));
        assert(t.table@[e.offset + slot_of(e, occ)] == bishop_rays(from as int, occ));
    }
    let shift = (e.magic >> 56) as u32;
    let slot = occ.wrapping_mul(e.magic) >> shift;
    proof {
        assert(slot == slot_of(e, occ));
    }
    t.table[e.offset as usize + slot as usize]
}

/// Magic lookup of the rook attack set from `from` through `blockers`.
pub fn get_rook_attacks_from(t: &AttackTables, from: Square, blockers: u64) -> (r: u64)
    requires
        t.wf(),
        from < 64,
    ensures
        r == rook_att(from as int, blockers),
        popcnt(r) <= 14,
{
    let e = t.rook[from as usize];
    let occ = blockers & e.mask;
    proof {
        lemma_and_mask_idem(blockers, e.mask);
        lemma_rook_rays_popcnt(from as int, occ);
        assert(entry_wf(e, from as int, t.table@, false));
        assert(slot_of(e, occ) < slab_width(e));
        assert(t.table@[e.offset + slot_of(e, occ)] == rook_rays(from as int, occ));
    }
    let shift = (e.magic >> 56) as u32;
    let slot = occ.wrapping_mul(e.magic) >> shift;
    proof {
        assert(slot == slot_of(e, occ));
    }
    t.table[e.offset as usize + slot as usize]
}

/// Every subset of `mask`, in increasing order (the carry-rippler walk).
fn enum_subsets(mask: u64) -> (r: Vec<u64>)
    ensures
        forall|k: int| 0 <= k < r@.len() ==> (#[trigger] r@[k]) & mask == r@[k],
        forall|t: u64| #[trigger] (t & mask) == t ==> r@.contains(t),
{
    let mut out: Vec<u64> = Vec::new();
    let mut occ: u64 = 0;
    proof {
        assert(0u64 & mask == 0) by (bit_vector);
    }
    loop
        invariant
            occ & mask == occ,
            forall|k: int| 0 <= k < out@.len() ==> (#[trigger] out@[k]) & mask == out@[k],
            forall|t: u64| #[trigger] (t & mask) == t && t < occ ==> out@.contains(t),
        ensures
            forall|k: int| 0 <= k < out@.len() ==> (#[trigger] out@[k]) & mask == out@[k],
            forall|t: u64| #[trigger] (t & mask) == t ==> out@.contains(t),
        decreases mask - occ,
    {
        let ghost prev = out@;
        let ghost occ0 = occ;
        out.push(occ);
        proof {
            assert forall|t: u64| prev.contains(t) implies out@.contains(t) by {
                let i: int = choose|i: int| 0 <= i < prev.len() && prev[i] == t;
                assert(0 <= i < out@.len() && out@[i] == t);
            }
            assert(out@[out@.len() - 1] == occ0);
            assert(out@.contains(occ0));
        }
        let next = occ.wrapping_sub(mask) & mask;
        proof {
            let wnext = vstd::wrapping::u64_specs::wrapping_sub(occ0, mask) & mask;
            assert((occ0 & mask == occ0 && wnext != 0) ==> wnext > occ0) by (bit_vector)
                requires
                    wnext == vstd::wrapping::u64_specs::wrapping_sub(occ0, mask) & mask,
            ;
            assert(forall|t: u64|
                (occ0 & mask == occ0 && (#[trigger] (t & mask)) == t && t > occ0) ==> t >= (
                vstd::wrapping::u64_specs::wrapping_sub(occ0, mask) & mask)) by (bit_vector);
            assert((occ0 & mask == occ0 && wnext == 0) ==> occ0 == mask) by (bit_vector)
                requires
                    wnext == vstd::wrapping::u64_specs::wrapping_sub(occ0, mask) & mask,
            ;
            assert(wnext & mask == wnext) by (bit_vector)
                requires
                    wnext == vstd::wrapping::u64_specs::wrapping_sub(occ0, mask) & mask,
            ;
            assert(forall|t: u64| (#[trigger] (t & mask)) == t ==> t <= mask) by (bit_vector);
        }
        if next == 0 {
            proof {
                assert(occ0 == mask);
                assert forall|t: u64| #[trigger] (t & mask) == t implies out@.contains(t) by {
                    assert(t <= mask);
                    if t < occ0 {
                        assert(prev.contains(t));
                    } else {
                        assert(t == occ0);
                    }
                }
            }
            break;
        }
        proof {
            assert(next > occ0);
            assert forall|t: u64| #[trigger] (t & mask) == t && t < next implies out@.contains(
                t,
            ) by {
                if t < occ0 {
                    assert(prev.contains(t));
                } else {
                    assert(t == occ0);
                }
            }
        }
        occ = next;
    }
    out
}

/// The ray attack sets for each occupancy in `occs`.
fn compute_references(sq: Square, occs: &Vec<u64>, bishop: bool) -> (r: Vec<u64>)
    requires
        sq < 64,
    ensures
        r@.len() == occs@.len(),
        forall|k: int|
            0 <= k < r@.len() ==> r@[k] == if bishop {
                bishop_rays(sq as int, #[trigger] occs@[k])
            } else {
                rook_rays(sq as int, occs@[k])
            },
{
    let mut r: Vec<u64> = Vec::new();
    let mut i: usize = 0;
    while i < occs.len()
        invariant
            sq < 64,
            i <= occs@.len(),
            r@.len() == i,
            forall|k: int|
                0 <= k < i ==> r@[k] == if bishop {
                    bishop_rays(sq as int, #[trigger] occs@[k])
                } else {
                    rook_rays(sq as int, occs@[k])
                },
        decreases occs@.len() - i,
    {
        let occ = occs[i];
        if bishop {
            r.push(bishop_attacks_slow(sq, occ));
        } else {
            r.push(rook_attacks_slow(sq, occ));
        }
        i += 1;
    }
    r
}


/// A magic entry keeps resolving correctly when the table changes only
/// outside its slab.
proof fn lemma_entry_wf_frame(e: Magic, sq: int, t1: Seq<u64>, t2: Seq<u64>, bishop: bool)
    requires
        entry_wf(e, sq, t1, bishop),
        t2.len() == t1.len(),
        forall|j: int| e.offset <= j < e.offset + slab_width(e) ==> t2[j] == t1[j],
    ensures
        entry_wf(e, sq, t2, bishop),
{
    assert forall|occ: u64| occ & e.mask == occ implies #[trigger] slot_of(e, occ) < slab_width(e)
        && t2[e.offset + slot_of(e, occ)] == if bishop {
        bishop_rays(sq, occ)
    } else {
        rook_rays(sq, occ)
    } by {
        assert(slot_of(e, occ) < slab_width(e));
        assert(t1[e.offset + slot_of(e, occ)] == if bishop {
            bishop_rays(sq, occ)
        } else {
            rook_rays(sq, occ)
        });
    }
}


/// What a successful magic search guarantees for the found entry.
pub open spec fn found_magic_ok(
    e: Magic,
    mask: u64,
    offset: u32,
    shift: u64,
    occupancy: Seq<u64>,
    reference: Seq<u64>,
    table: Seq<u64>,
) -> bool {
    &&& e.mask == mask
    &&& e.offset == offset
    &&& shift <= (e.magic >> 56) < 64
    &&& slab_width(e) <= (1u64 << ((64 - shift) as u64))
    &&& forall|k: int|
        0 <= k < occupancy.len() ==> #[trigger] slot_of(e, occupancy[k]) < slab_width(e) && table[
            offset + slot_of(e, occupancy[k])] == reference[k]
}

/// Search for a magic factor for one square, writing its slab of the table.
///
/// `occupancy` lists subsets of `mask` and `reference[k]` is the attack set
/// for `occupancy[k]`.  A trial factor is kept when every listed occupancy
/// maps to a slot that either is fresh this round or already holds the same
/// attack set (a constructive collision); `last_used` stamps slots per round
/// so failed rounds need not be erased.
fn find_magic(
    table: &mut Vec<u64>,
    occupancy: &Vec<u64>,
    reference: &Vec<u64>,
    mask: u64,
    offset: u32,
    shift: u64,
    words: &Vec<u64>,
    cursor: &mut usize,
) -> (res: Option<Magic>)
    requires
        old(table)@.len() == TABLE_SIZE,
        occupancy@.len() == reference@.len(),
        49 <= shift < 64,
        offset + (1u64 << ((64 - shift) as u64)) <= TABLE_SIZE,
        forall|k: int|
            0 <= k < occupancy@.len() ==> (#[trigger] occupancy@[k]) & mask == occupancy@[k],
        (*old(cursor) <= words@.len()),
    ensures
        final(table)@.len() == TABLE_SIZE,
        (*final(cursor) <= words@.len()),
        forall|j: int|
            0 <= j < TABLE_SIZE && !(offset <= j < offset + (1u64 << ((64 - shift) as u64)))
                ==> final(table)@[j] == old(table)@[j],
        (res matches Some(e) ==> found_magic_ok(e, mask, offset, shift, occupancy@, reference@,
        final(table)@)),
        (res is None ==> words@.len() < *final(cursor) + 3),
{
    let ghost orig_table = table@;
    let width_u: u64 = 1u64 << ((64 - shift) as u64);
    proof {
        assert(49 <= shift < 64 ==> (1u64 << ((64 - shift) as u64)) < 0x10000) by (bit_vector);
    }
    let size = occupancy.len();
    let mut last_used: Vec<u64> = Vec::new();
    while last_used.len() < width_u as usize
        invariant
            width_u < 0x10000,
            last_used@.len() <= width_u,
        decreases width_u - last_used@.len(),
    {
        last_used.push(0);
    }
    let mut tries: u64 = 1;
    loop
        invariant
            orig_table == old(table)@,
            table@.len() == TABLE_SIZE,
            last_used@.len() == width_u,
            49 <= shift < 64,
            width_u == 1u64 << ((64 - shift) as u64),
            width_u < 0x10000,
            offset + width_u <= TABLE_SIZE,
            occupancy@.len() == reference@.len(),
            size == occupancy@.len(),
            forall|k: int|
                0 <= k < occupancy@.len() ==> (#[trigger] occupancy@[k]) & mask
                    == occupancy@[k],
            *cursor <= words@.len(),
            3 * (tries - 1) <= *cursor,
            forall|j: int|
                0 <= j < TABLE_SIZE && !(offset <= j < offset + width_u) ==> table@[j]
                    == orig_table[j],
        decreases words@.len() - *cursor,
    {
        if words.len() - *cursor < 3 {
            return None;
        }
        let w1 = words[*cursor];
        let w2 = words[*cursor + 1];
        let w3 = words[*cursor + 2];
        *cursor += 3;
        let magic_val: u64 = (w1 & w2 & w3) & 0x00FF_FFFF_FFFF_FFFF | (shift << 56);
        proof {
            assert(shift <= (magic_val >> 56) < 64) by (bit_vector)
                requires
                    magic_val == (w1 & w2 & w3) & 0x00FF_FFFF_FFFF_FFFF | (shift << 56),
                    49 <= shift < 64,
            ;
        }
        let e = Magic { magic: magic_val, mask, offset };
        proof {
            assert((1u64 << ((64 - (magic_val >> 56)) as u64)) <= width_u) by (bit_vector)
                requires
                    width_u == 1u64 << ((64 - shift) as u64),
                    shift <= (magic_val >> 56) < 64,
                    49 <= shift < 64,
            ;
            assert(slab_width(e) == 1u64 << ((64 - (magic_val >> 56)) as u64));
        }
        let mut i: usize = 0;
        let mut retry = false;
        while i < size && !retry
            invariant
                i <= size,
                size == occupancy@.len(),
                occupancy@.len() == reference@.len(),
                table@.len() == TABLE_SIZE,
                last_used@.len() == width_u,
                e.mask == mask,
                e.offset == offset,
                49 <= shift <= (e.magic >> 56) < 64,
                width_u == 1u64 << ((64 - shift) as u64),
                width_u < 0x10000,
                slab_width(e) <= width_u,
                offset + width_u <= TABLE_SIZE,
                forall|k: int|
                    0 <= k < occupancy@.len() ==> (#[trigger] occupancy@[k]) & mask
                        == occupancy@[k],
                forall|k: int|
                    0 <= k < i ==> #[trigger] slot_of(e, occupancy@[k]) < slab_width(e)
                        && table@[offset + slot_of(e, occupancy@[k])] == reference@[k]
                        && last_used@[slot_of(e, occupancy@[k]) as int] == tries,
                forall|j: int|
                    0 <= j < TABLE_SIZE && !(offset <= j < offset + width_u) ==> table@[j]
                        == orig_table[j],
            ensures
                retry || i == size,
            decreases size - i,
        {
            let occ = occupancy[i];
            let sh = (e.magic >> 56) as u32;
            let slot = occ.wrapping_mul(e.magic) >> sh;
            proof {
                assert(occupancy@[i as int] & mask == occupancy@[i as int]);
                let m = e.magic;
                assert(slot == slot_of(e, occ));
                assert((vstd::wrapping::u64_specs::wrapping_mul(occ, m) >> (m >> 56)) < (1u64 << ((
                64 - (m >> 56)) as u64))) by (bit_vector)
                    requires
                        49 <= (m >> 56) < 64,
                ;
                assert(slot < slab_width(e));
            }
            let idx = offset as usize + slot as usize;
            let entry = table[idx];
            let r = reference[i];
            if entry != r && last_used[slot as usize] == tries {
                retry = true;
                break;
            }
            let ghost tpre = table@;
            let ghost lpre = last_used@;
            table.set(idx, r);
            last_used.set(slot as usize, tries);
            i += 1;
            proof {
                assert forall|k: int| 0 <= k < i implies #[trigger] slot_of(e, occupancy@[k])
                    < slab_width(e) && table@[offset + slot_of(e, occupancy@[k])] == reference@[k]
                    && last_used@[slot_of(e, occupancy@[k]) as int] == tries by {
                    if k < i - 1 {
                        assert(slot_of(e, occupancy@[k]) < slab_width(e));
                        if offset + slot_of(e, occupancy@[k]) == idx {
                            assert(lpre[slot_of(e, occupancy@[k]) as int] == tries);
                            assert(slot_of(e, occupancy@[k]) == slot);
                            assert(tpre[idx as int] == reference@[k]);
                            assert(entry == reference@[k]);
                            assert(entry == r);
                        }
                    } else {
                        assert(occupancy@[k] == occ);
                    }
                }
            }
        }
        if !retry {
            return Some(e);
        }
        tries += 1;
    }
}


/// What holds of the finished magic entries of one piece kind: 64 entries,
/// each resolving by `entry_wf`, with all slabs inside [start, end).
pub open spec fn piece_magics_ok(
    v: Seq<Magic>,
    table: Seq<u64>,
    bishop: bool,
    start: u32,
    end: u32,
) -> bool {
    &&& v.len() == 64
    &&& forall|sq: int| 0 <= sq < 64 ==> entry_wf(#[trigger] v[sq], sq, table, bishop)
    &&& forall|sq: int|
        0 <= sq < 64 ==> start <= (#[trigger] v[sq]).offset && v[sq].offset + slab_width(v[sq])
            <= end
}

/// The relevant-occupancy mask of one piece kind on one square.
pub open spec fn piece_rel(bishop: bool, sq: int) -> u64 {
    if bishop {
        bishop_relevant(sq)
    } else {
        rook_relevant(sq)
    }
}

/// The table slab width one square's search uses.
pub open spec fn slab_need(bishop: bool, sq: int) -> int {
    let bits = popcnt(piece_rel(bishop, sq));
    if 1 <= bits <= 15 {
        (1u64 << bits) as int
    } else {
        0
    }
}

/// The table room the searches of the first `k` squares use together.
pub open spec fn slab_need_sum(bishop: bool, k: int) -> int
    decreases k,
{
    if k <= 0 {
        0int
    } else {
        slab_need_sum(bishop, k - 1) + slab_need(bishop, k - 1)
    }
}

/// Build the magic entries of one piece kind, filling table slabs from
/// `start` upwards. Returns the entries and the offset one past the last
/// slab.  The search gives up only when the word budget runs dry, a mask is
/// degenerate, or the table has no room for a slab.
fn init_piece_magics(
    table: &mut Vec<u64>,
    bishop: bool,
    start: u32,
    words: &Vec<u64>,
    cursor: &mut usize,
) -> (res: Option<(Vec<Magic>, u32)>)
    requires
        old(table)@.len() == TABLE_SIZE,
        start <= TABLE_SIZE,
        (*old(cursor) <= words@.len()),
    ensures
        final(table)@.len() == TABLE_SIZE,
        (*final(cursor) <= words@.len()),
        forall|j: int| 0 <= j < start ==> final(table)@[j] == old(table)@[j],
        (res matches Some(pair) ==> start <= pair.1 <= TABLE_SIZE && piece_magics_ok(
            pair.0@,
            final(table)@,
            bishop,
            start,
            pair.1,
        )),
        (res is None ==> words@.len() < *final(cursor) + 3 || exists|q: int|
            0 <= q < 64 && (!(1 <= popcnt(piece_rel(bishop, q)) <= 15) || (TABLE_SIZE as int)
                < start + slab_need_sum(bishop, q) + slab_need(bishop, q))),
{
    let ghost orig_table = table@;
    let mut entries: Vec<Magic> = Vec::new();
    let mut offset: u32 = start;
    let mut sq: u8 = 0;
    while sq < 64
        invariant
            orig_table == old(table)@,
            table@.len() == TABLE_SIZE,
            (*cursor <= words@.len()),
            sq <= 64,
            entries@.len() == sq,
            start <= offset <= TABLE_SIZE,
            offset == start + slab_need_sum(bishop, sq as int),
            forall|j: int| 0 <= j < start ==> table@[j] == orig_table[j],
            forall|q: int| 0 <= q < sq ==> entry_wf(#[trigger] entries@[q], q, table@, bishop),
            forall|q: int|
                0 <= q < sq ==> start <= (#[trigger] entries@[q]).offset && entries@[q].offset
                    + slab_width(entries@[q]) <= offset,
        decreases 64 - sq,
    {
        let mask = if bishop {
            bishop_mask(sq)
        } else {
            rook_mask(sq)
        };
        let bits = crate::bitboard::popcount(mask);
        if bits < 1 || bits > 15 {
            proof {
                assert(!(1 <= popcnt(piece_rel(bishop, sq as int)) <= 15));
            }
            return None;
        }
        let shift: u64 = 64 - bits as u64;
        let width: u64 = 1u64 << ((64 - shift) as u64);
        proof {
            assert(49 <= shift < 64 ==> (1u64 << ((64 - shift) as u64)) < 0x10000) by (bit_vector);
        }
        let remaining: u64 = (TABLE_SIZE as u64) - (offset as u64);
        proof {
            assert(width as int == slab_need(bishop, sq as int));
        }
        if remaining < width {
            return None;
        }
        let occs = enum_subsets(mask);
        let refs = compute_references(sq, &occs, bishop);
        let ghost tpre = table@;
        let found = find_magic(table, &occs, &refs, mask, offset, shift, words, cursor);
        let e = match found {
            Some(e) => e,
            None => {
                return None;
            },
        };
        proof {
            assert forall|q: int| 0 <= q < sq implies entry_wf(
                #[trigger] entries@[q],
                q,
                table@,
                bishop,
            ) by {
                lemma_entry_wf_frame(entries@[q], q, tpre, table@, bishop);
            }
            assert(entry_wf(e, sq as int, table@, bishop)) by {
                assert forall|occ: u64| occ & e.mask == occ implies #[trigger] slot_of(e, occ)
                    < slab_width(e) && table@[e.offset + slot_of(e, occ)] == if bishop {
                    bishop_rays(sq as int, occ)
                } else {
                    rook_rays(sq as int, occ)
                } by {
                    assert(occs@.contains(occ));
                    let k: int = choose|k: int| 0 <= k < occs@.len() && occs@[k] == occ;
                    assert(slot_of(e, occs@[k]) < slab_width(e));
                    assert(table@[offset + slot_of(e, occs@[k])] == refs@[k]);
                }
            }
        }
        let ghost epre = entries@;
        entries.push(e);
        proof {
            assert(entries@ =~= epre + seq![e]);
        }
        offset = offset + width as u32;
        sq = sq + 1;
    }
    Some((entries, offset))
}

/// The 32-byte seed for the magic search of one piece kind, derived from a
/// fixed first byte.
fn magic_seed(first: u8) -> (r: Vec<u8>)
    ensures
        r@.len() == 32,
{
    let mut seed: Vec<u8> = Vec::new();
    seed.push(first);
    let mut i: usize = 1;
    while i < 32
        invariant
            1 <= i <= 32,
            seed@.len() == i,
        decreases 32 - i,
    {
        let prev = seed[i - 1];
        proof {
            assert(i * i < 1024) by (nonlinear_arith)
                requires
                    i < 32,
            ;
        }
        seed.push((((i * i) % 256) as u8).wrapping_add(prev));
        i += 1;
    }
    seed
}

/// Compute the shared magic attack tables for bishops and rooks.
///
/// The trial magic factors come from a seeded deterministic stream, so the
/// layout is reproducible; the search gives up (returning `None`) only if the
/// word budget runs out before every square has a working factor.
pub fn initialize_magics() -> (res: Option<AttackTables>)
    ensures
        (res matches Some(t) ==> t.wf()),
{
    let mut table: Vec<u64> = Vec::new();
    while table.len() < TABLE_SIZE
        invariant
            table@.len() <= TABLE_SIZE,
        decreases TABLE_SIZE - table@.len(),
    {
        table.push(0);
    }
    let seed_b = magic_seed(1);
    let words_b = crate::rng::chacha_words(&seed_b, 6_000_000);
    let mut cursor_b: usize = 0;
    let found_b = init_piece_magics(&mut table, true, 0, &words_b, &mut cursor_b);
    let (bishop, bishop_end) = match found_b {
        Some(pair) => pair,
        None => {
            return None;
        },
    };
    let ghost t_bishop = table@;
    let seed_r = magic_seed(3);
    let words_r = crate::rng::chacha_words(&seed_r, 6_000_000);
    let mut cursor_r: usize = 0;
    let found_r = init_piece_magics(&mut table, false, bishop_end, &words_r, &mut cursor_r);
    let (rook, rook_end) = match found_r {
        Some(pair) => pair,
        None => {
            return None;
        },
    };
    proof {
        assert forall|sq: int| 0 <= sq < 64 implies entry_wf(
            #[trigger] bishop@[sq],
            sq,
            table@,
            true,
        ) by {
            lemma_entry_wf_frame(bishop@[sq], sq, t_bishop, table@, true);
        }
    }
    Some(AttackTables { table, bishop, rook })
}


/// The knight attack set: the eight L-shaped jumps, edge bits masked off.
pub open spec fn knight_att(sq: int) -> u64 {
    let b = crate::bitboard::bit(sq);
    let fwd2 = crate::bitboard::shift_forward(true, b, 2);
    let back2 = crate::bitboard::shift_forward(false, b, 2);
    let left2 = crate::bitboard::shift_left(b, 2);
    let right2 = crate::bitboard::shift_right(b, 2);
    crate::bitboard::shift_left(fwd2, 1) | crate::bitboard::shift_right(fwd2, 1)
        | crate::bitboard::shift_left(back2, 1) | crate::bitboard::shift_right(back2, 1)
        | crate::bitboard::shift_forward(true, left2, 1) | crate::bitboard::shift_forward(
        true,
        right2,
        1,
    ) | crate::bitboard::shift_forward(false, left2, 1) | crate::bitboard::shift_forward(
        false,
        right2,
        1,
    )
}

/// The king attack set: the up-to-eight neighbouring squares.
pub open spec fn king_att(sq: int) -> u64 {
    let b = crate::bitboard::bit(sq);
    let row = crate::bitboard::shift_left(b, 1) | b | crate::bitboard::shift_right(b, 1);
    crate::bitboard::shift_forward(true, row, 1) | crate::bitboard::shift_forward(false, row, 1)
        | crate::bitboard::shift_left(b, 1) | crate::bitboard::shift_right(b, 1)
}

/// A bitboard that is zero or a power of two holds at most one square.
proof fn lemma_popcnt_le1(x: u64)
    requires
        x == 0 || x & ((x - 1) as u64) == 0,
    ensures
        popcnt(x) <= 1,
{
    if x != 0 {
        crate::bitboard::lemma_clear_lowest_bit(x);
        crate::bitboard::lemma_popcnt_zero(x & ((x - 1) as u64));
    }
}

/// Each jump term of the knight attack set is empty or a single square.
proof fn lemma_knight_att_parts(sq: u64)
    by (bit_vector)
    requires
        sq < 64,
    ensures
        ({
            let b = 1u64 << sq;
            let fwd2 = crate::bitboard::shift_forward(true, b, 2);
            let back2 = crate::bitboard::shift_forward(false, b, 2);
            let left2 = crate::bitboard::shift_left(b, 2);
            let right2 = crate::bitboard::shift_right(b, 2);
            let t1 = crate::bitboard::shift_left(fwd2, 1);
            let t2 = crate::bitboard::shift_right(fwd2, 1);
            let t3 = crate::bitboard::shift_left(back2, 1);
            let t4 = crate::bitboard::shift_right(back2, 1);
            let t5 = crate::bitboard::shift_forward(true, left2, 1);
            let t6 = crate::bitboard::shift_forward(true, right2, 1);
            let t7 = crate::bitboard::shift_forward(false, left2, 1);
            let t8 = crate::bitboard::shift_forward(false, right2, 1);
            &&& (t1 == 0 || t1 & ((t1 - 1) as u64) == 0)
            &&& (t2 == 0 || t2 & ((t2 - 1) as u64) == 0)
            &&& (t3 == 0 || t3 & ((t3 - 1) as u64) == 0)
            &&& (t4 == 0 || t4 & ((t4 - 1) as u64) == 0)
            &&& (t5 == 0 || t5 & ((t5 - 1) as u64) == 0)
            &&& (t6 == 0 || t6 & ((t6 - 1) as u64) == 0)
            &&& (t7 == 0 || t7 & ((t7 - 1) as u64) == 0)
            &&& (t8 == 0 || t8 & ((t8 - 1) as u64) == 0)
        }),
{
}

/// The shifted rows of the king attack set split into single-square terms.
proof fn lemma_king_att_parts(sq: u64)
    by (bit_vector)
    requires
        sq < 64,
    ensures
        ({
            let b = 1u64 << sq;
            let lb = crate::bitboard::shift_left(b, 1);
            let rb = crate::bitboard::shift_right(b, 1);
            let row = lb | b | rb;
            let u1 = crate::bitboard::shift_forward(true, lb, 1);
            let u2 = crate::bitboard::shift_forward(true, b, 1);
            let u3 = crate::bitboard::shift_forward(true, rb, 1);
            let d1 = crate::bitboard::shift_forward(false, lb, 1);
            let d2 = crate::bitboard::shift_forward(false, b, 1);
            let d3 = crate::bitboard::shift_forward(false, rb, 1);
            &&& crate::bitboard::shift_forward(true, row, 1) == u1 | u2 | u3
            &&& crate::bitboard::shift_forward(false, row, 1) == d1 | d2 | d3
            &&& (u1 == 0 || u1 & ((u1 - 1) as u64) == 0)
            &&& (u2 == 0 || u2 & ((u2 - 1) as u64) == 0)
            &&& (u3 == 0 || u3 & ((u3 - 1) as u64) == 0)
            &&& (d1 == 0 || d1 & ((d1 - 1) as u64) == 0)
            &&& (d2 == 0 || d2 & ((d2 - 1) as u64) == 0)
            &&& (d3 == 0 || d3 & ((d3 - 1) as u64) == 0)
            &&& (lb == 0 || lb & ((lb - 1) as u64) == 0)
            &&& (rb == 0 || rb & ((rb - 1) as u64) == 0)
        }),
{
}

/// The knight attack set of a square holds at most eight squares.
pub proof fn lemma_knight_att_popcnt(sq: int)
    requires
        0 <= sq < 64,
    ensures
        popcnt(knight_att(sq)) <= 8,
{
    lemma_knight_att_parts(sq as u64);
    let b = crate::bitboard::bit(sq);
    let fwd2 = crate::bitboard::shift_forward(true, b, 2);
    let back2 = crate::bitboard::shift_forward(false, b, 2);
    let left2 = crate::bitboard::shift_left(b, 2);
    let right2 = crate::bitboard::shift_right(b, 2);
    let t1 = crate::bitboard::shift_left(fwd2, 1);
    let t2 = crate::bitboard::shift_right(fwd2, 1);
    let t3 = crate::bitboard::shift_left(back2, 1);
    let t4 = crate::bitboard::shift_right(back2, 1);
    let t5 = crate::bitboard::shift_forward(true, left2, 1);
    let t6 = crate::bitboard::shift_forward(true, right2, 1);
    let t7 = crate::bitboard::shift_forward(false, left2, 1);
    let t8 = crate::bitboard::shift_forward(false, right2, 1);
    lemma_popcnt_le1(t1);
    lemma_popcnt_le1(t2);
    lemma_popcnt_le1(t3);
    lemma_popcnt_le1(t4);
    lemma_popcnt_le1(t5);
    lemma_popcnt_le1(t6);
    lemma_popcnt_le1(t7);
    lemma_popcnt_le1(t8);
    crate::bitboard::lemma_popcnt_or_le(t1, t2);
    crate::bitboard::lemma_popcnt_or_le(t1 | t2, t3);
    crate::bitboard::lemma_popcnt_or_le(t1 | t2 | t3, t4);
    crate::bitboard::lemma_popcnt_or_le(t1 | t2 | t3 | t4, t5);
    crate::bitboard::lemma_popcnt_or_le(t1 | t2 | t3 | t4 | t5, t6);
    crate::bitboard::lemma_popcnt_or_le(t1 | t2 | t3 | t4 | t5 | t6, t7);
    crate::bitboard::lemma_popcnt_or_le(t1 | t2 | t3 | t4 | t5 | t6 | t7, t8);
}

/// The king attack set of a square holds at most eight squares.
pub proof fn lemma_king_att_popcnt(sq: int)
    requires
        0 <= sq < 64,
    ensures
        popcnt(king_att(sq)) <= 8,
{
    lemma_king_att_parts(sq as u64);
    let b = crate::bitboard::bit(sq);
    let lb = crate::bitboard::shift_left(b, 1);
    let rb = crate::bitboard::shift_right(b, 1);
    let row = lb | b | rb;
    let u1 = crate::bitboard::shift_forward(true, lb, 1);
    let u2 = crate::bitboard::shift_forward(true, b, 1);
    let u3 = crate::bitboard::shift_forward(true, rb, 1);
    let d1 = crate::bitboard::shift_forward(false, lb, 1);
    let d2 = crate::bitboard::shift_forward(false, b, 1);
    let d3 = crate::bitboard::shift_forward(false, rb, 1);
    lemma_popcnt_le1(u1);
    lemma_popcnt_le1(u2);
    lemma_popcnt_le1(u3);
    lemma_popcnt_le1(d1);
    lemma_popcnt_le1(d2);
    lemma_popcnt_le1(d3);
    lemma_popcnt_le1(lb);
    lemma_popcnt_le1(rb);
    let up = crate::bitboard::shift_forward(true, row, 1);
    let down = crate::bitboard::shift_forward(false, row, 1);
    crate::bitboard::lemma_popcnt_or_le(u1, u2);
    crate::bitboard::lemma_popcnt_or_le(u1 | u2, u3);
    crate::bitboard::lemma_popcnt_or_le(d1, d2);
    crate::bitboard::lemma_popcnt_or_le(d1 | d2, d3);
    crate::bitboard::lemma_popcnt_or_le(up, down);
    crate::bitboard::lemma_popcnt_or_le(up | down, lb);
    crate::bitboard::lemma_popcnt_or_le(up | down | lb, rb);
}

/// Compute the knight attack set of a square.
pub fn knight_attacks(sq: Square) -> (r: u64)
    requires
        sq < 64,
    ensures
        r == knight_att(sq as int),
        popcnt(r) <= 8,
{
    let b = to_bb(sq);
    let fwd2 = crate::bitboard::forward(true, b, 2);
    let back2 = crate::bitboard::forward(false, b, 2);
    let left2 = crate::bitboard::left(b, 2);
    let right2 = crate::bitboard::right(b, 2);
    let r = crate::bitboard::left(fwd2, 1) | crate::bitboard::right(fwd2, 1)
        | crate::bitboard::left(back2, 1) | crate::bitboard::right(back2, 1)
        | crate::bitboard::forward(true, left2, 1) | crate::bitboard::forward(true, right2, 1)
        | crate::bitboard::forward(false, left2, 1) | crate::bitboard::forward(false, right2, 1);
    proof {
        lemma_knight_att_popcnt(sq as int);
    }
    r
}

/// Compute the king attack set of a square.
pub fn king_attacks(sq: Square) -> (r: u64)
    requires
        sq < 64,
    ensures
        r == king_att(sq as int),
        popcnt(r) <= 8,
{
    let b = to_bb(sq);
    let row = crate::bitboard::left(b, 1) | b | crate::bitboard::right(b, 1);
    let r = crate::bitboard::forward(true, row, 1) | crate::bitboard::forward(false, row, 1)
        | crate::bitboard::left(b, 1) | crate::bitboard::right(b, 1);
    proof {
        lemma_king_att_popcnt(sq as int);
    }
    r
}

} // verus!
