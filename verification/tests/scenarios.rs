use sealion::fen;
use sealion::{
    BitBoard, Capture, CastlingChecks, CastlingRights, Color, Generator, MoveExt, MoveList, Piece, PieceKind,
    Position, PositionState, Square,
};

fn position(record: &str) -> Position {
    let position = fen::from_str(record).unwrap();
    assert!(position.is_valid(), "{record}");
    position
}

fn moves_of(position: &Position) -> Vec<MoveExt> {
    let state = PositionState::generate(position);
    match MoveList::generate(&state) {
        MoveList::Moves(moves) => moves,
        _ => Vec::new(),
    }
}

fn sq(name: &str) -> Square {
    Square::from_str(name).unwrap()
}

fn find(moves: &[MoveExt], from: &str, to: &str) -> Vec<MoveExt> {
    moves
        .iter()
        .copied()
        .filter(|m| m.from == sq(from) && m.to == sq(to))
        .collect()
}

fn in_check(position: &Position, color: Color) -> bool {
    let mut seen_from = *position;
    seen_from.active_color = color;
    seen_from.ep_target = None;
    let state = PositionState::generate(&seen_from);
    state.attacks.bb.0 & state.board_ext.king_bb.0 != 0
}

#[test]
fn checkmate_after_scholars_mate() {
    let p = position("r1bqkb1r/pppp1Qpp/2n2n2/4p3/2B1P3/8/PPPP1PPP/RNB1K1NR b KQkq - 0 4");
    let state = PositionState::generate(&p);
    assert!(matches!(MoveList::generate(&state), MoveList::Checkmate));
}

#[test]
fn checkmate_after_fools_mate() {
    let p = position("rnb1kbnr/pppp1ppp/8/4p3/6Pq/5P2/PPPPP2P/RNBQKBNR w KQkq - 1 3");
    let state = PositionState::generate(&p);
    assert!(matches!(MoveList::generate(&state), MoveList::Checkmate));
}

#[test]
fn quiet_position_with_advanced_pawn_and_queen_is_no_mate() {
    let p = position("rnbqkbnr/pppp1ppp/5P1Q/8/8/8/PPPP1PPP/RNB1KBNR b KQkq - 0 1");
    assert!(!in_check(&p, Color::Black));
    assert!(!moves_of(&p).is_empty());
}

#[test]
fn stalemate_in_the_corner() {
    let p = position("7k/5Q2/6K1/8/8/8/8/8 b - - 0 1");
    let state = PositionState::generate(&p);
    assert!(matches!(MoveList::generate(&state), MoveList::Stalemate));
}

#[test]
fn pawn_sees_push_and_en_passant() {
    let p = position("rnbqkbnr/pppp1ppp/8/3Pp3/8/8/PPP1PPPP/RNBQKBNR w KQkq e6 0 1");
    let state = PositionState::generate(&p);
    let generator = Generator::new(&state);
    let reach = generator.pseudo_pawn_moves(sq("d5"));
    assert!(reach.get(sq("d6")));
    assert!(reach.get(sq("e6")));
    assert_eq!(reach.popcount(), 2);

    let moves = moves_of(&p);
    let capture = find(&moves, "d5", "e6");
    assert_eq!(capture.len(), 1);
    assert_eq!(capture[0].capture, Some(Capture::EnPassant));
    assert_eq!(capture[0].piece_kind, PieceKind::Pawn);

    let next = p.after_move(capture[0]);
    assert_eq!(next.board.get(sq("e5")), None);
    assert_eq!(
        next.board.get(sq("e6")),
        Some(Piece { color: Color::White, kind: PieceKind::Pawn })
    );
    assert_eq!(next.board.get(sq("d5")), None);
    assert_eq!(next.halfmove_clock, 0);
    assert!(next.is_valid());
}

#[test]
fn double_check_leaves_king_moves_only() {
    // knight on f6 and rook on e1 both give check to the king on e8
    let p = position("4k3/8/5N2/8/8/8/8/4R2K b - - 0 1");
    let state = PositionState::generate(&p);
    assert_eq!(state.attacks.checkers.melee_squares(), vec![sq("f6")]);
    assert_eq!(state.attacks.checkers.slider_rays().len(), 1);
    let moves = moves_of(&p);
    assert!(!moves.is_empty());
    assert!(moves.iter().all(|m| m.piece_kind == PieceKind::King));
}

#[test]
fn single_check_is_answered_on_the_line() {
    // rook on e1 gives check; black may block on e7..e2, take on e1, or move the king
    let p = position("4k3/8/8/8/7b/8/r7/4R2K b - - 0 1");
    let state = PositionState::generate(&p);
    let rays = state.attacks.checkers.slider_rays();
    assert_eq!(rays.len(), 1);
    // e1 to e8
    assert_eq!(rays[0].0, 0x1010_1010_1010_1010);
    let moves = moves_of(&p);
    for m in &moves {
        if m.piece_kind != PieceKind::King {
            assert_eq!(m.to.file(), 4, "{}", m.to_string());
        }
    }
    // bishop h4 to e7 or e1, rook a2 to e2
    assert_eq!(find(&moves, "h4", "e7").len(), 1);
    assert_eq!(find(&moves, "h4", "e1").len(), 1);
    assert_eq!(find(&moves, "a2", "e2").len(), 1);
    assert_eq!(find(&moves, "h4", "g5").len(), 0);
}

#[test]
fn pinned_piece_stays_on_the_line() {
    // the knight on e4 is pinned by the rook on e8, the bishop on d2 by the bishop on a5
    let p = position("4r2k/8/8/b7/4N3/8/3B4/4K3 w - - 0 1");
    let state = PositionState::generate(&p);
    let pins = state.attacks.pinner_rays();
    assert_eq!(pins.len(), 2);
    // a5 comes before e8: a5, b4, c3, d2, e1
    assert_eq!(pins[0].0, (1 << 32) | (1 << 25) | (1 << 18) | (1 << 11) | (1 << 4));
    assert_eq!(pins[1].0, 0x1010_1010_1010_1010);
    let moves = moves_of(&p);
    assert!(moves.iter().all(|m| m.from != sq("e4")));
    let bishop: Vec<_> = moves.iter().filter(|m| m.from == sq("d2")).collect();
    assert_eq!(bishop.len(), 3);
    assert!(bishop.iter().any(|m| m.to == sq("a5")
        && m.capture == Some(Capture::Regular(PieceKind::Bishop))));
}

#[test]
fn checking_pawn_is_taken_en_passant() {
    // black has just played d7-d5 and gives check to the king on e4
    let p = position("7k/8/8/3pP3/4K3/8/8/8 w - d6 0 1");
    let state = PositionState::generate(&p);
    assert_eq!(state.attacks.checkers.melee_squares(), vec![sq("d5")]);
    let moves = moves_of(&p);
    let ep = find(&moves, "e5", "d6");
    assert_eq!(ep.len(), 1);
    assert_eq!(ep[0].capture, Some(Capture::EnPassant));
    assert!(find(&moves, "e5", "e6").is_empty());
    assert_eq!(find(&moves, "e4", "d5").len(), 1);
}

#[test]
fn en_passant_that_opens_the_rank_is_left_out() {
    let p = position("8/8/8/KPp4r/8/8/8/7k w - c6 0 1");
    let moves = moves_of(&p);
    assert!(find(&moves, "b5", "c6").is_empty());
    assert_eq!(find(&moves, "b5", "b6").len(), 1);
}

#[test]
fn promotion_gives_four_moves() {
    let p = position("3r3k/4P3/8/8/8/8/8/K7 w - - 0 1");
    let moves = moves_of(&p);
    let push = find(&moves, "e7", "e8");
    let capture = find(&moves, "e7", "d8");
    assert_eq!(push.len(), 4);
    assert_eq!(capture.len(), 4);
    for kind in PieceKind::promotions() {
        assert!(push.iter().any(|m| m.promotion == Some(kind) && m.capture.is_none()));
        assert!(capture.iter().any(|m| m.promotion == Some(kind)
            && m.capture == Some(Capture::Regular(PieceKind::Rook))));
    }
    let queen = capture.iter().find(|m| m.promotion == Some(PieceKind::Queen)).unwrap();
    assert_eq!(queen.to_move().to_string(), "e7d8q");
    assert_eq!(queen.to_string(), "e7xd8q");
    let next = p.after_move(*queen);
    assert_eq!(
        next.board.get(sq("d8")),
        Some(Piece { color: Color::White, kind: PieceKind::Queen })
    );
    assert_eq!(next.board.get(sq("e7")), None);
    assert!(next.board.get_piece_kind_bb(PieceKind::Pawn).is_empty());
    assert!(next.board.get_piece_kind_bb(PieceKind::Rook).is_empty());
    assert!(next.is_valid());
}

#[test]
fn black_pawn_promotes_on_the_first_rank() {
    let p = position("7k/8/8/8/8/8/p7/7K b - - 0 1");
    let moves = moves_of(&p);
    assert_eq!(find(&moves, "a2", "a1").len(), 4);
}

#[test]
fn castling_both_sides() {
    let p = position("r3k2r/8/8/8/8/8/8/R3K2R w KQkq - 0 1");
    let moves = moves_of(&p);
    let short = find(&moves, "e1", "g1");
    let long = find(&moves, "e1", "c1");
    assert_eq!(short.len(), 1);
    assert_eq!(long.len(), 1);
    assert_eq!(short[0].piece_kind, PieceKind::King);
    assert_eq!(short[0].capture, None);

    let next = p.after_move(short[0]);
    let white_rook = Some(Piece { color: Color::White, kind: PieceKind::Rook });
    let white_king = Some(Piece { color: Color::White, kind: PieceKind::King });
    assert_eq!(next.board.get(sq("g1")), white_king);
    assert_eq!(next.board.get(sq("f1")), white_rook);
    assert_eq!(next.board.get(sq("h1")), None);
    assert_eq!(next.board.get(sq("e1")), None);
    assert_eq!(next.board.get(sq("a1")), white_rook);
    assert_eq!(next.castling.bits(), CastlingRights::BLACK_OO | CastlingRights::BLACK_OOO);
    assert_eq!(next.active_color, Color::Black);

    let next = p.after_move(long[0]);
    assert_eq!(next.board.get(sq("c1")), white_king);
    assert_eq!(next.board.get(sq("d1")), white_rook);
    assert_eq!(next.board.get(sq("a1")), None);
    assert_eq!(next.board.get(sq("h1")), white_rook);

    let black = position("r3k2r/8/8/8/8/8/8/R3K2R b KQkq - 0 1");
    let moves = moves_of(&black);
    let short = find(&moves, "e8", "g8");
    let long = find(&moves, "e8", "c8");
    assert_eq!(short.len(), 1);
    assert_eq!(long.len(), 1);
    let next = black.after_move(long[0]);
    assert_eq!(
        next.board.get(sq("d8")),
        Some(Piece { color: Color::Black, kind: PieceKind::Rook })
    );
    assert_eq!(next.castling.bits(), CastlingRights::WHITE_OO | CastlingRights::WHITE_OOO);
    assert_eq!(next.fullmove_counter, 2);
}

#[test]
fn castling_needs_free_and_safe_squares() {
    // the bishop on b1 stands in the way on the queenside, the rook on f8 attacks f1
    let p = position("5r1k/8/8/8/8/8/8/RB2K2R w KQ - 0 1");
    let moves = moves_of(&p);
    assert!(find(&moves, "e1", "g1").is_empty());
    assert!(find(&moves, "e1", "c1").is_empty());
    // in check no castling at all
    let p = position("4r2k/8/8/8/8/8/8/R3K2R w KQ - 0 1");
    let moves = moves_of(&p);
    assert!(find(&moves, "e1", "g1").is_empty());
    assert!(find(&moves, "e1", "c1").is_empty());
    // an attack on b1 does not matter
    let p = position("1r5k/8/8/8/8/8/8/R3K2R w KQ - 0 1");
    let moves = moves_of(&p);
    assert_eq!(find(&moves, "e1", "c1").len(), 1);
}

#[test]
fn rights_follow_rook_and_king() {
    let p = position("r3k2r/8/8/8/8/8/8/R3K2R w KQkq - 0 1");
    let moves = moves_of(&p);
    let all = CastlingRights::all().bits();

    let rook_h = find(&moves, "h1", "h4")[0];
    assert_eq!(p.after_move(rook_h).castling.bits(), all & !CastlingRights::WHITE_OO);
    let rook_a = find(&moves, "a1", "a4")[0];
    assert_eq!(p.after_move(rook_a).castling.bits(), all & !CastlingRights::WHITE_OOO);
    let king = find(&moves, "e1", "e2")[0];
    assert_eq!(
        p.after_move(king).castling.bits(),
        CastlingRights::BLACK_OO | CastlingRights::BLACK_OOO
    );
    // taking the rook on h8 takes black's kingside right, and white's with the move
    let takes = find(&moves, "h1", "h8")[0];
    assert_eq!(takes.capture, Some(Capture::Regular(PieceKind::Rook)));
    assert_eq!(
        p.after_move(takes).castling.bits(),
        CastlingRights::WHITE_OOO | CastlingRights::BLACK_OOO
    );
    let takes = find(&moves, "a1", "a8")[0];
    assert_eq!(
        p.after_move(takes).castling.bits(),
        CastlingRights::WHITE_OO | CastlingRights::BLACK_OO
    );
}

#[test]
fn unset_takes_the_right_named() {
    let all = CastlingRights::all();
    assert_eq!(all.unset_oo(Color::White).bits(), 0x0e);
    assert_eq!(all.unset_ooo(Color::White).bits(), 0x0d);
    assert_eq!(all.unset_oo(Color::Black).bits(), 0x0b);
    assert_eq!(all.unset_ooo(Color::Black).bits(), 0x07);
    assert!(all.contains(CastlingRights::WHITE_OOO));
    assert!(!all.unset_ooo(Color::White).contains(CastlingRights::WHITE_OOO));
    assert!(all.unset_ooo(Color::White).contains(CastlingRights::WHITE_OO));
    assert_eq!(CastlingRights::empty().bits(), 0);
}

#[test]
fn clocks_and_target_after_moves() {
    let p = Position::starting();
    let moves = moves_of(&p);

    let knight = find(&moves, "g1", "f3")[0];
    let next = p.after_move(knight);
    assert_eq!(next.halfmove_clock, 1);
    assert_eq!(next.fullmove_counter, 1);
    assert_eq!(next.ep_target, None);
    assert_eq!(next.active_color, Color::Black);

    let pawn = find(&moves, "e2", "e4")[0];
    let next = p.after_move(pawn);
    assert_eq!(next.halfmove_clock, 0);
    assert_eq!(next.ep_target, Some(sq("e3")));
    assert_eq!(
        next,
        fen::from_str("rnbqkbnr/pppppppp/8/8/4P3/8/PPPP1PPP/RNBQKBNR b KQkq e3 0 1").unwrap()
    );

    let reply = find(&moves_of(&next), "c7", "c5")[0];
    let after = next.after_move(reply);
    assert_eq!(after.ep_target, Some(sq("c6")));
    assert_eq!(after.fullmove_counter, 2);
    assert_eq!(
        after,
        fen::from_str("rnbqkbnr/pp1ppppp/8/2p5/4P3/8/PPPP1PPP/RNBQKBNR w KQkq c6 0 2").unwrap()
    );

    let mut late = position("7k/8/8/8/8/8/8/KN6 w - - 255 65535");
    let m = find(&moves_of(&late), "b1", "c3")[0];
    late.apply_move_unchecked(m);
    assert_eq!(late.halfmove_clock, 255);
    assert_eq!(late.fullmove_counter, 65535);
    let m = find(&moves_of(&late), "h8", "h7")[0];
    late.apply_move_unchecked(m);
    assert_eq!(late.fullmove_counter, 65535);
}

#[test]
fn capture_of_a_piece_of_the_same_kind() {
    let p = position("7k/8/8/3n4/8/4N3/8/K7 w - - 5 1");
    let takes = find(&moves_of(&p), "e3", "d5")[0];
    assert_eq!(takes.capture, Some(Capture::Regular(PieceKind::Knight)));
    let next = p.after_move(takes);
    assert_eq!(
        next.board.get(sq("d5")),
        Some(Piece { color: Color::White, kind: PieceKind::Knight })
    );
    assert_eq!(next.board.get_piece_kind_bb(PieceKind::Knight).popcount(), 1);
    assert_eq!(next.board.get_color_bb(Color::Black).popcount(), 1);
    assert_eq!(next.halfmove_clock, 0);
}

#[test]
fn snapshot_brings_the_position_back() {
    let original = Position::starting();
    let mut working = original;
    for m in moves_of(&original) {
        let snapshot = working.clone();
        working.apply_move_unchecked(m);
        assert_ne!(working, original);
        assert_eq!(original.after_move(m), working);
        working = snapshot;
        assert_eq!(working, original);
    }
}

fn walk(position: &Position, depth: usize) {
    assert!(position.is_valid());
    let board = &position.board;
    let white = board.get_color_bb(Color::White);
    let black = board.get_color_bb(Color::Black);
    assert_eq!(white.0 & black.0, 0);
    let kings = board.get_piece_kind_bb(PieceKind::King);
    assert_eq!((kings.0 & white.0).count_ones(), 1);
    assert_eq!((kings.0 & black.0).count_ones(), 1);
    assert!(board.get_full_bb().popcount() <= 32);
    assert!(!in_check(position, position.active_color.opposite()));

    let state = PositionState::generate(position);
    match MoveList::generate(&state) {
        MoveList::Moves(moves) => {
            assert!(!moves.is_empty());
            for (i, a) in moves.iter().enumerate() {
                for b in &moves[i + 1..] {
                    assert_ne!(a, b);
                }
            }
            if depth > 0 {
                for m in moves {
                    walk(&position.after_move(m), depth - 1);
                }
            }
        }
        MoveList::Checkmate => assert!(in_check(position, position.active_color)),
        MoveList::Stalemate => assert!(!in_check(position, position.active_color)),
    }
}

#[test]
fn invariants_hold_along_every_line() {
    walk(&Position::starting(), 3);
    walk(&position("r3k2r/p1ppqpb1/bn2pnp1/3PN3/1p2P3/2N2Q1p/PPPBBPPP/R3K2R w KQkq - 0 1"), 2);
    walk(&position("8/2p5/3p4/KP5r/1R3p1k/8/4P1P1/8 w - - 0 1"), 3);
    walk(&position("rnbq1k1r/pp1Pbppp/2p5/8/2B5/8/PPP1NnPP/RNBQK2R w KQ - 1 8"), 2);
}

#[test]
fn attacked_squares_see_through_the_king() {
    // the rook on a1 attacks the whole first rank, also behind the king on d1
    let p = position("7k/8/8/8/8/8/8/r2K4 w - - 0 1");
    let state = PositionState::generate(&p);
    let attacks: BitBoard = state.attacks.bb;
    assert!(attacks.get(sq("e1")));
    assert!(attacks.get(sq("h1")));
    assert!(attacks.get(sq("a8")));
    assert!(!attacks.get(sq("a1")));
    // g8, h7 and g7 from the king
    assert!(attacks.get(sq("g7")));
    assert_eq!(state.board_ext.king_bb, BitBoard::from_square(sq("d1")));
    assert_eq!(
        state.board_ext.get(sq("a1")),
        Some(Piece { color: Color::Black, kind: PieceKind::Rook })
    );
    assert_eq!(state.board_ext.get(sq("b1")), None);
    let moves = moves_of(&p);
    assert!(find(&moves, "d1", "e1").is_empty());
    assert!(find(&moves, "d1", "c1").is_empty());
    assert_eq!(moves.len(), 3);
}

#[test]
fn score_is_the_material_balance() {
    let p = Position::starting();
    assert_eq!(PositionState::generate(&p).score.pieces, 0);
    let p = position("7k/8/8/8/8/8/8/KQ6 w - - 0 1");
    assert_eq!(PositionState::generate(&p).score.pieces, 900);
    let p = position("7k/8/8/8/8/8/8/KQ6 b - - 0 1");
    assert_eq!(PositionState::generate(&p).score.pieces, -900);
    let p = position("QQQQQQQk/QQQQQQQQ/QQQQQQQQ/QQQQQQQQ/QQQQQQQQ/QQQQQQQQ/QQQQQQQQ/KQQQQQQQ w - - 0 1");
    assert_eq!(PositionState::generate(&p).score.pieces, 32767);
}

#[test]
fn castling_checks_by_color_and_side() {
    let oo = CastlingChecks::of(Color::White, true);
    assert_eq!((oo.clear.0, oo.safe.0, oo.to_sq), (0x60, 0x70, sq("g1")));
    let ooo = CastlingChecks::of(Color::White, false);
    assert_eq!((ooo.clear.0, ooo.safe.0, ooo.to_sq), (0x0e, 0x1c, sq("c1")));
    let oo = CastlingChecks::of(Color::Black, true);
    assert_eq!((oo.clear.0, oo.safe.0, oo.to_sq), (0x60 << 56, 0x70 << 56, sq("g8")));
    let ooo = CastlingChecks::of(Color::Black, false);
    assert_eq!((ooo.clear.0, ooo.safe.0, ooo.to_sq), (0x0e << 56, 0x1c << 56, sq("c8")));
    let zero = CastlingChecks::zero();
    assert!(zero.clear.is_empty() && zero.safe.is_empty());
}
