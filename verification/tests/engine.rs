use asymptote_core::attacks::{self, AttackTables};
use asymptote_core::eval::{Eval, Material, Positional};
use asymptote_core::fen::from_fen;
use asymptote_core::hash::Hasher;
use asymptote_core::history::History;
use asymptote_core::movegen::{Move, MoveGenerator, Piece};
use asymptote_core::position::Position;

fn tables() -> AttackTables {
    attacks::initialize_magics().expect("magic table construction must succeed")
}

fn find_move(moves: &[Move], alg_from: u8, alg_to: u8) -> Move {
    *moves
        .iter()
        .find(|m| m.from == alg_from && m.to == alg_to)
        .expect("move not generated")
}

fn sq(file: u8, rank: u8) -> u8 {
    rank * 8 + file
}

#[test]
fn test_parse_start_fen() {
    let start_by_fen =
        from_fen("rnbqkbnr/pppppppp/8/8/8/8/PPPPPPPP/RNBQKBNR w KQkq - 0 1").unwrap();
    assert_eq!(start_by_fen, Position::starting());
}

fn perft(t: &AttackTables, pos: &mut Position, depth: u32) -> u64 {
    if depth == 0 {
        return 1;
    }
    let moves = MoveGenerator::from(&*pos).all_moves(t);
    let mut nodes = 0;
    for m in moves {
        if pos.move_is_legal(t, m) {
            let details = pos.details;
            pos.make_move(m);
            nodes += perft(t, pos, depth - 1);
            pos.unmake_move(m, details);
        }
    }
    nodes
}

#[test]
fn test_perft_start_shallow() {
    let t = tables();
    let mut pos = Position::starting();
    assert_eq!(perft(&t, &mut pos, 1), 20);
    assert_eq!(perft(&t, &mut pos, 2), 400);
    assert_eq!(perft(&t, &mut pos, 3), 8902);
}

#[test]
fn test_perft_start_depth_four() {
    let t = tables();
    let mut pos = Position::starting();
    assert_eq!(perft(&t, &mut pos, 4), 197281);
}

#[test]
fn test_perft_kiwipete() {
    // A castling- and pin-heavy reference position exercising the legality
    // filter (what all_moves allows after move_is_legal must match the known
    // counts).
    let t = tables();
    let mut pos =
        from_fen("r3k2r/p1ppqpb1/bn2pnp1/3PN3/1p2P3/2N2Q1p/PPPBBPPP/R3K2R w KQkq - 0 1").unwrap();
    assert_eq!(perft(&t, &mut pos, 1), 48);
    assert_eq!(perft(&t, &mut pos, 2), 2039);
    assert_eq!(perft(&t, &mut pos, 3), 97862);
}

#[test]
fn test_perft_en_passant_pins() {
    let t = tables();
    let mut pos = from_fen("8/2p5/3p4/KP5r/1R3p1k/8/4P1P1/8 w - - 0 1").unwrap();
    assert_eq!(perft(&t, &mut pos, 1), 14);
    assert_eq!(perft(&t, &mut pos, 2), 191);
    assert_eq!(perft(&t, &mut pos, 3), 2812);
    assert_eq!(perft(&t, &mut pos, 4), 43238);
}

fn start_eval() -> Eval {
    Eval {
        material: Material {
            white_pawns: 8,
            white_knights: 2,
            white_bishops: 2,
            white_rooks: 2,
            white_queens: 1,
            black_pawns: 8,
            black_knights: 2,
            black_bishops: 2,
            black_rooks: 2,
            black_queens: 1,
        },
        pst: [0, 0],
        positional: Positional {
            white_pawns_per_file: [1; 8],
            black_pawns_per_file: [1; 8],
        },
        pawn_table: Vec::new(),
    }
}

#[test]
fn test_make_unmake_restores_everything() {
    // Position, Hasher and Eval all return bit for bit to their prior state
    // after make followed by unmake.
    let t = tables();
    let mut pos = Position::starting();
    let mut hasher = Hasher::new();
    let mut eval = start_eval();
    let moves = MoveGenerator::from(&pos.clone()).all_moves(&t);
    for m in moves {
        let mut p = pos.clone();
        if !p.move_is_legal(&t, m) {
            continue;
        }
        let pos0 = pos.clone();
        let hash0 = hasher.get_hash();
        let eval0 = eval.clone();
        let details = pos.details;
        hasher.make_move(&pos, m);
        eval.make_move(m, &pos);
        pos.make_move(m);
        hasher.unmake_move(&pos, m, details);
        eval.unmake_move(m, &pos);
        pos.unmake_move(m, details);
        assert_eq!(pos, pos0);
        assert_eq!(hasher.get_hash(), hash0);
        assert_eq!(eval, eval0);
    }
}

#[test]
fn test_make_unmake_castle_and_capture() {
    let t = tables();
    let mut pos =
        from_fen("r3k2r/p1ppqpb1/bn2pnp1/3PN3/1p2P3/2N2Q1p/PPPBBPPP/R3K2R w KQkq - 0 1").unwrap();
    let mut hasher = Hasher::new();
    let moves = MoveGenerator::from(&pos.clone()).all_moves(&t);
    for m in moves {
        let mut p = pos.clone();
        if !p.move_is_legal(&t, m) {
            continue;
        }
        let pos0 = pos.clone();
        let hash0 = hasher.get_hash();
        let details = pos.details;
        hasher.make_move(&pos, m);
        pos.make_move(m);
        hasher.unmake_move(&pos, m, details);
        pos.unmake_move(m, details);
        assert_eq!(pos, pos0);
        assert_eq!(hasher.get_hash(), hash0);
    }
}

#[test]
fn test_nullmove_roundtrip() {
    let mut pos = Position::starting();
    let pos0 = pos.clone();
    let details = pos.details;
    pos.make_nullmove();
    assert!(!pos.white_to_move);
    assert_eq!(pos.details.en_passant, 255);
    pos.unmake_nullmove(details);
    assert_eq!(pos, pos0);
}

#[test]
fn test_hash_transposition() {
    // Two move orders reaching the same board, side, castling mask and
    // en-passant state give the same hash.
    let t = tables();
    let mut a = Position::starting();
    let mut ha = Hasher::new();
    for (f0, r0, f1, r1) in [(6u8, 0u8, 5u8, 2u8), (6, 7, 5, 5), (1, 0, 2, 2), (1, 7, 2, 5)] {
        let moves = MoveGenerator::from(&a.clone()).all_moves(&t);
        let m = find_move(&moves, sq(f0, r0), sq(f1, r1));
        ha.make_move(&a, m);
        a.make_move(m);
    }
    let mut b = Position::starting();
    let mut hb = Hasher::new();
    for (f0, r0, f1, r1) in [(1u8, 0u8, 2u8, 2u8), (1, 7, 2, 5), (6, 0, 5, 2), (6, 7, 5, 5)] {
        let moves = MoveGenerator::from(&b.clone()).all_moves(&t);
        let m = find_move(&moves, sq(f0, r0), sq(f1, r1));
        hb.make_move(&b, m);
        b.make_move(m);
    }
    assert_eq!(a, b);
    assert_eq!(ha.get_hash(), hb.get_hash());
}

#[test]
fn test_pawn_double_push_hash_keys() {
    // After e2e4 from the start no en-passant capture is available (no enemy
    // pawn beside e4), so the hash differs only by the pawn keys of e2 and
    // e4, their white-occupancy keys, and the side key.
    let t = tables();
    let mut pos = Position::starting();
    let mut hasher = Hasher::new();
    let h0 = hasher.get_hash();
    let moves = MoveGenerator::from(&pos.clone()).all_moves(&t);
    let m = find_move(&moves, sq(4, 1), sq(4, 3));
    hasher.make_move(&pos, m);
    pos.make_move(m);
    assert_eq!(pos.details.en_passant, 255);
    assert!(!pos.white_to_move);
    assert_eq!(pos.details.halfmove, 0);
    let e2 = sq(4, 1) as usize;
    let e4 = sq(4, 3) as usize;
    let expected = h0
        ^ hasher.pawns[e2]
        ^ hasher.pawns[e4]
        ^ hasher.color[e2]
        ^ hasher.color[e4]
        ^ hasher.white_to_move;
    assert_eq!(hasher.get_hash(), expected);
}

#[test]
fn test_en_passant_created_when_capturable() {
    // A double push beside an enemy pawn records the en-passant file.
    let t = tables();
    let mut pos = from_fen("4k3/8/8/8/3p4/8/4P3/4K3 w - - 0 1").unwrap();
    let moves = MoveGenerator::from(&pos.clone()).all_moves(&t);
    let m = find_move(&moves, sq(4, 1), sq(4, 3));
    pos.make_move(m);
    assert_eq!(pos.details.en_passant, 4);
}

#[test]
fn test_see_pawn_takes_pawn() {
    let t = tables();
    let pos = from_fen("4k3/8/8/3p4/4P3/8/8/4K3 w - - 0 1").unwrap();
    let moves = MoveGenerator::from(&pos).all_moves(&t);
    let m = find_move(&moves, sq(4, 3), sq(3, 4));
    assert_eq!(pos.see(&t, m), 100);
}

#[test]
fn test_see_defended_pawn() {
    // Taking a defended pawn with a rook loses rook for pawn.
    let t = tables();
    let pos = from_fen("4k3/2p5/3p4/8/3R4/8/8/4K3 w - - 0 1").unwrap();
    let moves = MoveGenerator::from(&pos).all_moves(&t);
    let m = find_move(&moves, sq(3, 3), sq(3, 5));
    assert_eq!(pos.see(&t, m), 100 - 500);
}

#[test]
fn test_double_check_only_king_moves() {
    let t = tables();
    let pos = from_fen("4k3/8/8/8/8/3n4/5q2/4K3 w - - 0 1").unwrap();
    let gen = MoveGenerator::from(&pos);
    let mut moves = Vec::new();
    let mut scores = Vec::new();
    let mut bad_moves = Vec::new();
    let mut bad_scores = Vec::new();
    gen.good_captures(&t, &mut moves, &mut scores, &mut bad_moves, &mut bad_scores);
    for m in moves.iter().chain(bad_moves.iter()) {
        assert_eq!(m.piece, Piece::King);
    }
    let mut quiets = Vec::new();
    gen.quiet_moves(&t, &mut quiets);
    for m in &quiets {
        assert_eq!(m.piece, Piece::King);
    }
}

#[test]
fn test_good_captures_split_by_exchange() {
    let t = tables();
    let pos = from_fen("4k3/2p5/3p3p/8/3R1B2/8/8/4K3 w - - 0 1").unwrap();
    let gen = MoveGenerator::from(&pos);
    let mut moves = Vec::new();
    let mut scores = Vec::new();
    let mut bad_moves = Vec::new();
    let mut bad_scores = Vec::new();
    gen.good_captures(&t, &mut moves, &mut scores, &mut bad_moves, &mut bad_scores);
    assert_eq!(moves.len(), scores.len());
    assert_eq!(bad_moves.len(), bad_scores.len());
    for m in &moves {
        assert!(pos.see(&t, *m) >= 0);
    }
    for m in &bad_moves {
        assert!(pos.see(&t, *m) < 0);
    }
    // Rook takes the pawn defended by another pawn: a losing exchange.
    assert!(bad_moves.iter().any(|m| m.from == sq(3, 3) && m.to == sq(3, 5)));
    // Bishop takes the undefended pawn on h6: a winning exchange.
    assert!(moves.iter().any(|m| m.from == sq(5, 3) && m.to == sq(7, 5)));
}

#[test]
fn test_is_draw_material() {
    let none = Material {
        white_pawns: 0,
        white_knights: 0,
        white_bishops: 0,
        white_rooks: 0,
        white_queens: 0,
        black_pawns: 0,
        black_knights: 0,
        black_bishops: 0,
        black_rooks: 0,
        black_queens: 0,
    };
    // K vs K
    assert!(none.is_draw());
    // K+B vs K
    assert!(Material { white_bishops: 1, ..none }.is_draw());
    // K+N vs K
    assert!(Material { white_knights: 1, ..none }.is_draw());
    // K+NN vs K
    assert!(Material { white_knights: 2, ..none }.is_draw());
    // K+B vs K+N
    assert!(!Material { white_bishops: 1, black_knights: 1, ..none }.is_draw());
    // A pawn is never a known draw.
    assert!(!Material { white_pawns: 1, ..none }.is_draw());
}

#[test]
fn test_material_score_and_phase() {
    let m = Material {
        white_pawns: 8,
        white_knights: 2,
        white_bishops: 2,
        white_rooks: 2,
        white_queens: 1,
        black_pawns: 8,
        black_knights: 2,
        black_bishops: 2,
        black_rooks: 2,
        black_queens: 1,
    };
    assert_eq!(m.score(), 0);
    assert_eq!(m.non_pawn_material(), 62);
    let up_a_knight = Material { black_knights: 1, ..m };
    // 300 for the knight, the trade incentive, and no pair changes.
    assert_eq!(up_a_knight.score(), 300 + 4 * 8 + 4 * 8);
}

#[test]
fn test_sliding_attacks_match_rays() {
    let t = tables();
    // Rook on a1, empty board: the a-file and the first rank.
    let a1 = attacks::get_rook_attacks_from(&t, 0, 0);
    assert_eq!(a1, 0x0101_0101_0101_01FE);
    // Rook on a1 blocked by a piece on a3.
    let blocked = attacks::get_rook_attacks_from(&t, 0, 1 << 16);
    assert_eq!(blocked, 0x0000_0000_0001_01FE);
    // Bishop on d4, empty board: both diagonals.
    let d4 = attacks::get_bishop_attacks_from(&t, 27, 0);
    assert_eq!(d4, 0x8041_2214_0014_2241);
}

#[test]
fn test_in_check_and_legality() {
    let t = tables();
    let pos = from_fen("4k3/8/8/8/8/8/4r3/4K3 w - - 0 1").unwrap();
    assert!(pos.in_check(&t));
    let moves = MoveGenerator::from(&pos).all_moves(&t);
    // Only king moves help: capture the rook or step off the e-file.
    for m in &moves {
        if pos.move_is_legal(&t, *m) {
            assert_eq!(m.piece, Piece::King);
            assert!(m.to == sq(4, 1) || m.to % 8 != 4);
        }
    }
}

#[test]
fn test_move_will_check() {
    let t = tables();
    let pos = from_fen("4k3/8/8/8/8/8/3R4/4K3 w - - 0 1").unwrap();
    let moves = MoveGenerator::from(&pos).all_moves(&t);
    // Rook to d8 or to e2 gives check, rook to d5 does not.
    let d8 = find_move(&moves, sq(3, 1), sq(3, 7));
    let e2 = find_move(&moves, sq(3, 1), sq(4, 1));
    let d5 = find_move(&moves, sq(3, 1), sq(3, 4));
    assert!(pos.move_will_check(&t, d8));
    assert!(pos.move_will_check(&t, e2));
    assert!(!pos.move_will_check(&t, d5));
}

#[test]
fn test_pseudo_legality() {
    let t = tables();
    let pos = Position::starting();
    let moves = MoveGenerator::from(&pos).all_moves(&t);
    for m in &moves {
        assert!(pos.move_is_pseudo_legal(&t, *m));
    }
    // A double push is rejected once the intermediate square is occupied.
    let blocked = from_fen("4k3/8/8/8/8/4n3/4P3/4K3 w - - 0 1").unwrap();
    let e2e4 = Move {
        from: sq(4, 1),
        to: sq(4, 3),
        piece: Piece::Pawn,
        captured: None,
        promoted: None,
        en_passant: false,
    };
    assert!(!blocked.move_is_pseudo_legal(&t, e2e4));
    // A knight jump to a square its pattern cannot reach is rejected.
    let bogus = Move {
        from: sq(1, 0),
        to: sq(3, 3),
        piece: Piece::Knight,
        captured: None,
        promoted: None,
        en_passant: false,
    };
    assert!(!pos.move_is_pseudo_legal(&t, bogus));
}

#[test]
fn test_fen_errors() {
    assert!(from_fen("rnbqkbnr/pppppppp/8/8/8/8/PPPPPPPP/RNBQKBNR w KQkq - 0 1").is_ok());
    // An unexpected character in the board field.
    assert!(from_fen("rnbqkbnr/ppppXppp/8/8/8/8/PPPPPPPP/RNBQKBNR w KQkq - 0 1").is_err());
    // An unexpected character in the castling field.
    assert!(from_fen("rnbqkbnr/pppppppp/8/8/8/8/PPPPPPPP/RNBQKBNR w KXkq - 0 1").is_err());
    // A board without a white king.
    assert!(from_fen("rnbq1bnr/pppppppp/8/8/8/8/PPPPPPPP/RNBQ1BNR w - - 0 1").is_err());
    // Defaults for missing clocks.
    let p = from_fen("rnbqkbnr/pppppppp/8/8/8/8/PPPPPPPP/RNBQKBNR w KQkq -").unwrap();
    assert_eq!(p.details.halfmove, 0);
    assert_eq!(p.fullmove, 1);
}

#[test]
fn test_en_passant_capture_playable() {
    let t = tables();
    let mut pos = from_fen("4k3/8/8/8/3p4/8/4P3/4K3 w - - 0 1").unwrap();
    let m = find_move(
        &MoveGenerator::from(&pos.clone()).all_moves(&t),
        sq(4, 1),
        sq(4, 3),
    );
    pos.make_move(m);
    let moves = MoveGenerator::from(&pos.clone()).all_moves(&t);
    let ep = moves
        .iter()
        .find(|m| m.en_passant)
        .copied()
        .expect("en-passant capture must be generated");
    assert_eq!(ep.from, sq(3, 3));
    assert_eq!(ep.to, sq(4, 2));
    assert_eq!(ep.captured, Some(Piece::Pawn));
    let details = pos.details;
    pos.make_move(ep);
    // The captured pawn is gone from e4.
    assert_eq!(pos.bb[0] & (1u64 << sq(4, 3)), 0);
    pos.unmake_move(ep, details);
}

#[test]
fn test_promotion_moves_generated() {
    let t = tables();
    let pos = from_fen("4k3/P7/8/8/8/8/8/4K3 w - - 0 1").unwrap();
    let moves = MoveGenerator::from(&pos).all_moves(&t);
    let promos: Vec<_> = moves.iter().filter(|m| m.from == sq(0, 6)).collect();
    assert_eq!(promos.len(), 4);
    assert_eq!(promos[0].promoted, Some(Piece::Queen));
    assert_eq!(promos[1].promoted, Some(Piece::Knight));
    assert_eq!(promos[2].promoted, Some(Piece::Rook));
    assert_eq!(promos[3].promoted, Some(Piece::Bishop));
}

#[test]
fn test_history_scores() {
    let mut h = History::default();
    let m = Move {
        from: sq(6, 0),
        to: sq(5, 2),
        piece: Piece::Knight,
        captured: None,
        promoted: None,
        en_passant: false,
    };
    assert_eq!(h.get_score(true, m), 0);
    h.increase_score(true, m, 3 * asymptote_core::history::INC_PLY);
    assert_eq!(h.get_score(true, m), 9);
    assert_eq!(h.get_score(false, m), 0);
    // Pushing an entry past the score range rescales every entry by four.
    for _ in 0..200 {
        h.increase_score(true, m, 8 * asymptote_core::history::INC_PLY);
    }
    assert!(h.get_score(true, m) <= asymptote_core::history::HISTORY_CAP);
}

#[test]
fn test_mvv_lva_ordering() {
    let pxq = Move {
        from: 0,
        to: 8,
        piece: Piece::Pawn,
        captured: Some(Piece::Queen),
        promoted: None,
        en_passant: false,
    };
    let qxp = Move {
        from: 0,
        to: 8,
        piece: Piece::Queen,
        captured: Some(Piece::Pawn),
        promoted: None,
        en_passant: false,
    };
    assert_eq!(pxq.mvv_lva_score(), 128 * 1000 - 100);
    assert_eq!(qxp.mvv_lva_score(), 128 * 100 - 1000);
    assert!(pxq.mvv_lva_score() > qxp.mvv_lva_score());
    assert!(pxq.is_kingside_castle() == false);
    assert!(qxp.is_quiet() == false);
}

#[test]
fn test_passed_pawn_bonus() {
    // A white pawn on e6 (two ranks from promotion) earns the passer bonus
    // of 50 midgame and 80 endgame; the supporting d2 pawn adds its own
    // distant-passer 10/10.
    let t = tables();
    let pos = from_fen("4k3/8/4P3/8/8/8/3P4/4K3 w - - 0 1").unwrap();
    let eval = start_eval();
    let (mg, eg) = eval.pawns_for_side(&pos, true);
    assert_eq!((mg, eg), (60, 90));
    let _ = &t;
}

#[test]
fn test_king_safety_short_circuit() {
    // With no black queen and at most one black rook, White's king safety is
    // only the centre-distance pull.
    let pos = from_fen("4k3/8/8/8/8/8/8/4K2R w K - 0 1").unwrap();
    let mut eval = start_eval();
    eval.material.black_queens = 0;
    eval.material.black_rooks = 0;
    let (mg, eg) = eval.king_safety_for_side(&pos, true);
    // The white king on e1 is three steps from the centre.
    assert_eq!((mg, eg), (0, -15));
}

#[test]
fn test_rook_file_bonuses() {
    // One rook on a fully open file, one behind an own pawn, one facing only
    // an enemy pawn.
    let pos = from_fen("4k3/2p5/8/8/8/8/1P6/RRR1K3 w - - 0 1").unwrap();
    let eval = start_eval();
    assert_eq!(eval.rooks_for_side(&pos, true), 15 + 0 + 5);
}

#[test]
fn test_doubling_penalties() {
    let p = Positional {
        white_pawns_per_file: [2, 0, 0, 0, 0, 0, 0, 0],
        black_pawns_per_file: [1, 1, 3, 0, 0, 0, 0, 0],
    };
    // White pays 25 for the doubled a-pawns; Black pays 60 for the tripled
    // c-pawns.
    assert_eq!(p.score(), -25 + 60);
}

#[test]
fn test_material_and_positional_counts() {
    let pos = Position::starting();
    let m = Material::from(&pos);
    assert_eq!(m.white_pawns, 8);
    assert_eq!(m.black_pawns, 8);
    assert_eq!(m.white_knights, 2);
    assert_eq!(m.white_bishops, 2);
    assert_eq!(m.white_rooks, 2);
    assert_eq!(m.white_queens, 1);
    assert_eq!(m.black_queens, 1);
    assert!(!m.is_draw());
    let p = Positional::from(&pos);
    assert_eq!(p.white_pawns_per_file, [1; 8]);
    assert_eq!(p.black_pawns_per_file, [1; 8]);
    let doubled = from_fen("4k3/8/8/8/4P3/8/4P3/4K3 w - - 0 1").unwrap();
    let pd = Positional::from(&doubled);
    assert_eq!(pd.white_pawns_per_file[4], 2);
    assert_eq!(pd.score(), -25);
}

#[test]
fn test_init_pst_score_single_pawn() {
    let pos = from_fen("4k3/8/8/8/8/8/4P3/4K3 w - - 0 1").unwrap();
    let pst = asymptote_core::eval::init_pst_score(&pos);
    // The white pawn on e2 reads the pawn table at the mirrored index; the
    // kings read a zero table.
    assert_eq!(pst[1], -15);
    assert_eq!(pst[0], 0);
}

#[test]
fn test_eval_from_start_is_symmetric() {
    let pos = Position::starting();
    let e = Eval::from(&pos);
    assert_eq!(e.pst[0], e.pst[1]);
    assert_eq!(e.pawn_table.len(), 2048);
    assert!(e.pawn_table.iter().all(|en| en.pawns == 0 && en.color == 0 && en.mg == 0 && en.eg == 0));
}

#[test]
fn test_mobility_single_pawn() {
    let t = tables();
    let pos = from_fen("4k3/8/8/8/8/8/4P3/4K3 w - - 0 1").unwrap();
    let e = Eval::from(&pos);
    // The e2 pawn has a single and a double push: two moves, six points each.
    assert_eq!(e.mobility_for_side(&t, &pos, true), 12);
    assert_eq!(e.mobility_for_side(&t, &pos, false), 0);
}

#[test]
fn test_mobility_start_symmetric() {
    let t = tables();
    let pos = Position::starting();
    let e = Eval::from(&pos);
    assert_eq!(
        e.mobility_for_side(&t, &pos, true),
        e.mobility_for_side(&t, &pos, false)
    );
}

#[test]
fn test_score_start_is_zero() {
    let t = tables();
    let pos = Position::starting();
    let mut e = Eval::from(&pos);
    assert_eq!(e.score(&t, &pos, 0), 0);
}

#[test]
fn test_score_flips_sign_for_black() {
    let t = tables();
    // White is a queen up; the same position with Black to move must score
    // the negation.
    let pw = from_fen("4k3/8/8/8/8/8/8/3QK3 w - - 0 1").unwrap();
    let pb = from_fen("4k3/8/8/8/8/8/8/3QK3 b - - 0 1").unwrap();
    let mut ew = Eval::from(&pw);
    let mut eb = Eval::from(&pb);
    let sw = ew.score(&t, &pw, 0);
    let sb = eb.score(&t, &pb, 0);
    assert!(sw > 0);
    assert_eq!(sw, -sb);
}

#[test]
fn test_pawn_cache_hit_and_miss() {
    let pos = from_fen("4k3/8/8/8/2P5/8/8/4K3 w - - 0 1").unwrap();
    let mut e = Eval::from(&pos);
    let (wmg, weg) = e.pawns_for_side(&pos, true);
    let (bmg, beg) = e.pawns_for_side(&pos, false);
    let miss = e.pawns(&pos, 9);
    assert_eq!(miss, (wmg - bmg, weg - beg));
    // The slot now holds both boards; the second call is a hit.
    let slot = &e.pawn_table[9];
    assert_eq!(slot.pawns, pos.bb[0]);
    assert_eq!(slot.color, pos.color & pos.bb[0]);
    let hit = e.pawns(&pos, 9);
    assert_eq!(hit, miss);
    // A colliding hash with different boards must not produce a false hit.
    let other = from_fen("4k3/8/8/8/8/2p5/8/4K3 w - - 0 1").unwrap();
    let r_other = e.pawns(&other, 9);
    let (owm, owe) = e.pawns_for_side(&other, true);
    let (obm, obe) = e.pawns_for_side(&other, false);
    assert_eq!(r_other, (owm - obm, owe - obe));
}

#[test]
fn test_from_algebraic_simple_and_errors() {
    let pos = Position::starting();
    let m = Move::from_algebraic(&pos, "e2e4").unwrap();
    assert_eq!(m.from, sq(4, 1));
    assert_eq!(m.to, sq(4, 3));
    assert_eq!(m.piece, Piece::Pawn);
    assert_eq!(m.captured, None);
    assert_eq!(m.promoted, None);
    assert!(!m.en_passant);
    assert!(Move::from_algebraic(&pos, "z2e4").is_err());
    assert!(Move::from_algebraic(&pos, "e2e").is_err());
    assert!(Move::from_algebraic(&pos, "e2e9").is_err());
    // An empty origin square is a bad move.
    assert!(Move::from_algebraic(&pos, "e3e4").is_err());
}

#[test]
fn test_from_algebraic_en_passant_and_promotion() {
    let pos =
        from_fen("rnbqkbnr/ppp1p1pp/8/3pPp2/8/8/PPPP1PPP/RNBQKBNR w KQkq f6 0 3").unwrap();
    let ep = Move::from_algebraic(&pos, "e5f6").unwrap();
    assert!(ep.en_passant);
    assert_eq!(ep.captured, Some(Piece::Pawn));
    assert_eq!(ep.piece, Piece::Pawn);

    let promo_pos = from_fen("4k3/6P1/8/8/8/8/8/4K3 w - - 0 1").unwrap();
    let promo = Move::from_algebraic(&promo_pos, "g7g8q").unwrap();
    assert_eq!(promo.promoted, Some(Piece::Queen));
    let promo_n = Move::from_algebraic(&promo_pos, "g7g8n").unwrap();
    assert_eq!(promo_n.promoted, Some(Piece::Knight));
}

#[test]
fn test_to_algebraic_roundtrip() {
    let pos = Position::starting();
    let m = Move::from_algebraic(&pos, "g1f3").unwrap();
    assert_eq!(m.to_algebraic(), "g1f3");
    let promo_pos = from_fen("4k3/6P1/8/8/8/8/8/4K3 w - - 0 1").unwrap();
    let promo = Move::from_algebraic(&promo_pos, "g7g8r").unwrap();
    assert_eq!(promo.to_algebraic(), "g7g8r");
    let m2 = Move::from_algebraic(&pos, "e2e4").unwrap();
    let again = Move::from_algebraic(&pos, &m2.to_algebraic()).unwrap();
    assert_eq!(m2, again);
}
