use sealion::bitboard::constants::{A_FILE, H_FILE};
use sealion::bits::popcount;
use sealion::{
    BitBoard, Board, BoardExt, Capture, Color, Generator, Move, MoveExt, Piece, PieceKind,
    PseudoScore, Square,
};

#[test]
fn square_parts() {
    let e4 = Square::at(3, 4).unwrap();
    assert_eq!(e4.raw_index(), 28);
    assert_eq!(e4.rank(), 3);
    assert_eq!(e4.file(), 4);
    assert_eq!(Square::from_index_unchecked(28), e4);
    assert_eq!(Square::try_from((3, 4)), Ok(e4));
    assert_eq!(Square::try_from((8, 0)), Err(()));
    assert_eq!(Square::try_from((0, 8)), Err(()));
    assert_eq!(Square::at(7, 7).unwrap().raw_index(), 63);
    assert_eq!(Square::at(0, 8), None);

    let mut sq = e4;
    *sq.raw_index_mut() += 8;
    assert_eq!(sq, Square::at(4, 4).unwrap());
    assert_eq!(Square::from_str("H1"), Ok(Square::at(0, 7).unwrap()));
    assert_eq!(Square::from_str(""), Err(()));
    assert_eq!(Square::from_str("i1"), Err(()));
    assert_eq!(Square::from_str("a9"), Err(()));
    assert_eq!(Square::at(0, 7).unwrap().to_string(), "h1");
}

#[test]
fn bitboard_squares() {
    let a1 = Square::at(0, 0).unwrap();
    let h8 = Square::at(7, 7).unwrap();
    let c3 = Square::at(2, 2).unwrap();
    let mut bb = BitBoard::zero();
    assert!(bb.is_empty());
    assert_eq!(bb, BitBoard::default());
    bb.set(h8, true);
    bb.set(c3, true);
    bb.set(a1, true);
    bb.set(c3, true);
    assert_eq!(bb.0, 0x8000_0000_0004_0001);
    assert!(bb.get(c3) && bb.get(a1) && bb.get(h8));
    assert!(!bb.get(Square::at(2, 3).unwrap()));
    assert_eq!(bb.popcount(), 3);
    assert_eq!(popcount(u64::MAX), 64);
    assert_eq!(popcount(0), 0);
    assert_eq!(bb.to_square_unchecked(), a1);
    bb.set(a1, false);
    bb.set(a1, false);
    assert_eq!(bb.0, 0x8000_0000_0004_0000);
    assert_eq!(bb.to_square_unchecked(), c3);
    assert_eq!(BitBoard::from_square(c3).0, 1 << 18);
    assert!(!bb.is_empty());
}

#[test]
fn set_squares_come_lowest_first() {
    let bb = BitBoard(0x8000_0000_0004_0001);
    let mut iter = bb.set_iter();
    assert_eq!(iter.len(), 3);
    assert_eq!(iter.size_hint(), (3, Some(3)));
    assert_eq!(iter.next(), Some(Square::from_index_unchecked(0)));
    assert_eq!(iter.next(), Some(Square::from_index_unchecked(18)));
    assert_eq!(iter.len(), 1);
    assert_eq!(iter.next(), Some(Square::from_index_unchecked(63)));
    assert_eq!(iter.next(), None);
    assert_eq!(iter.next(), None);
    assert_eq!(iter.len(), 0);
    assert_eq!(bb.0, 0x8000_0000_0004_0001);

    let mut count = 0;
    let mut all = BitBoard(u64::MAX).set_iter();
    while let Some(sq) = all.next() {
        assert_eq!(sq.raw_index(), count);
        count += 1;
    }
    assert_eq!(count, 64);
}

#[test]
fn bitboard_operators() {
    let a = BitBoard(0b1100);
    let b = BitBoard(0b1010);
    assert_eq!((a & b).0, 0b1000);
    assert_eq!((a | b).0, 0b1110);
    assert_eq!((a ^ b).0, 0b0110);
    assert_eq!((!a).0, !0b1100u64);
    assert_eq!((a << 8).0, 0b1100 << 8);
    assert_eq!((a >> 2).0, 0b11);
    assert_eq!((BitBoard(1 << 63) << 1).0, 0);
    assert!(a == 0b1100u64);
    assert!(a != 0b1101u64);
    assert_eq!("e4".parse::<Square>(), Ok(Square::at(3, 4).unwrap()));
    assert_eq!("z4".parse::<Square>(), Err(()));
    let by_trait: Result<Square, ()> = (3u8, 4u8).try_into();
    assert_eq!(by_trait, Ok(Square::at(3, 4).unwrap()));
    assert_eq!(A_FILE, 0x0101_0101_0101_0101);
    assert_eq!(H_FILE, 0x8080_8080_8080_8080);
    assert_eq!(!Color::White, Color::Black);
    assert_eq!(!Color::Black, Color::White);
}

#[test]
fn pieces_and_letters() {
    assert_eq!(Color::White.opposite(), Color::Black);
    assert_eq!(Color::Black.opposite(), Color::White);
    assert_eq!(Color::COUNT, 2);
    assert_eq!(PieceKind::COUNT, 6);
    let kinds = [
        (PieceKind::Pawn, 'P', 'p', 100, false),
        (PieceKind::Knight, 'N', 'n', 300, false),
        (PieceKind::Bishop, 'B', 'b', 325, true),
        (PieceKind::Rook, 'R', 'r', 500, true),
        (PieceKind::Queen, 'Q', 'q', 900, true),
        (PieceKind::King, 'K', 'k', 10_000, false),
    ];
    for (i, (kind, upper, lower, score, slider)) in kinds.into_iter().enumerate() {
        assert_eq!(kind.as_char(), upper);
        assert_eq!(kind.score(), score);
        assert_eq!(kind.is_slider(), slider);
        assert_eq!(kind.index(), i);
        let white = Piece { color: Color::White, kind };
        let black = Piece { color: Color::Black, kind };
        assert_eq!(white.as_char(), upper);
        assert_eq!(black.as_char(), lower);
        assert_eq!(Piece::from_char(upper), Some(white));
        assert_eq!(Piece::from_char(lower), Some(black));
    }
    assert_eq!(Piece::from_char('x'), None);
    assert_eq!(Piece::from_char('1'), None);
    assert_eq!(
        PieceKind::promotions(),
        [PieceKind::Knight, PieceKind::Bishop, PieceKind::Rook, PieceKind::Queen]
    );
    assert_eq!(Color::White.index(), 0);
    assert_eq!(Color::Black.index(), 1);
}

#[test]
fn board_masks() {
    let board = Board::starting_position();
    assert!(board.is_valid());
    assert_eq!(board.get_color_bb(Color::White).0, 0xFFFF);
    assert_eq!(board.get_color_bb(Color::Black).0, 0xFFFF_0000_0000_0000);
    assert_eq!(board.get_piece_kind_bb(PieceKind::Pawn).0, 0x00FF_0000_0000_FF00);
    assert_eq!(board.get_piece_kind_bb(PieceKind::King).0, 0x1000_0000_0000_0010);
    assert_eq!(board.get_full_bb().0, 0xFFFF_0000_0000_FFFF);
    assert_eq!(
        board.get_piece_bb(Piece { color: Color::Black, kind: PieceKind::Queen }).0,
        1 << 59
    );
    let e1 = Square::at(0, 4).unwrap();
    let e4 = Square::at(3, 4).unwrap();
    let d8 = Square::at(7, 3).unwrap();
    assert_eq!(board.get_color(e1), Some(Color::White));
    assert_eq!(board.get_piece_kind(e1), Some(PieceKind::King));
    assert_eq!(board.get(e1), Some(Piece { color: Color::White, kind: PieceKind::King }));
    assert_eq!(board.get(d8), Some(Piece { color: Color::Black, kind: PieceKind::Queen }));
    assert_eq!(board.get(e4), None);
    assert_eq!(board.get_color(e4), None);
    assert_eq!(board.get_piece_kind(e4), None);
}

#[test]
fn board_set_places_and_clears() {
    let mut board = Board::default();
    assert!(!board.is_valid());
    assert!(board.get_full_bb().is_empty());
    let e4 = Square::at(3, 4).unwrap();
    let knight = Piece { color: Color::Black, kind: PieceKind::Knight };
    board.set(e4, Some(knight));
    assert_eq!(board.get(e4), Some(knight));
    assert_eq!(board.get_full_bb().0, 1 << 28);
    assert_eq!(board.get_piece_kind_bb(PieceKind::Knight).0, 1 << 28);
    assert_eq!(board.get_color_bb(Color::Black).0, 1 << 28);
    assert_eq!(board.get_color_bb(Color::White).0, 0);
    board.set(Square::at(0, 0).unwrap(), Some(Piece { color: Color::White, kind: PieceKind::King }));
    board.set(Square::at(7, 7).unwrap(), Some(Piece { color: Color::Black, kind: PieceKind::King }));
    assert!(board.is_valid());
    board.set(e4, None);
    assert_eq!(board.get(e4), None);
    assert_eq!(board.get_full_bb().popcount(), 2);
    assert!(board.is_valid());

    *board.get_color_bb_mut(Color::White) = BitBoard(0);
    assert!(!board.is_valid());
    board.get_piece_kind_bb_mut(PieceKind::King).set(Square::at(0, 0).unwrap(), false);
    assert_eq!(board.get_piece_kind_bb(PieceKind::King).0, 1 << 63);
}

#[test]
fn moves_as_text() {
    let e2 = Square::at(1, 4).unwrap();
    let e4 = Square::at(3, 4).unwrap();
    let p_move = Move { from: e2, to: e4, promotion: None };
    assert_eq!(p_move.to_string(), "e2e4");
    let ext = MoveExt::from_move(p_move, PieceKind::Pawn);
    assert_eq!(ext.piece_kind, PieceKind::Pawn);
    assert_eq!(ext.capture, None);
    assert_eq!(ext.promotion, None);
    assert_eq!(ext.to_move(), p_move);
    assert_eq!(ext.to_string(), "e2e4");

    let promote = Move {
        from: Square::at(6, 4).unwrap(),
        to: Square::at(7, 4).unwrap(),
        promotion: Some(PieceKind::Queen),
    };
    assert_eq!(promote.to_string(), "e7e8q");
    let knight = MoveExt {
        piece_kind: PieceKind::Knight,
        from: Square::at(0, 6).unwrap(),
        to: Square::at(2, 5).unwrap(),
        promotion: None,
        capture: Some(Capture::Regular(PieceKind::Pawn)),
    };
    assert_eq!(knight.to_string(), "Ng1xf3");
    assert_eq!(knight.to_move().to_string(), "g1f3");
}

#[test]
fn attack_sets_stop_at_the_edges() {
    let a1 = Square::at(0, 0).unwrap();
    let h8 = Square::at(7, 7).unwrap();
    let h4 = Square::at(3, 7).unwrap();
    assert_eq!(Generator::knight_attacks(a1).0, (1 << 10) | (1 << 17));
    assert_eq!(Generator::knight_attacks(h8).0, (1 << 46) | (1 << 53));
    assert_eq!(Generator::king_attacks(a1).0, (1 << 1) | (1 << 8) | (1 << 9));
    assert_eq!(Generator::king_attacks(h4).0, (1 << 23) | (1 << 22) | (1 << 30) | (1 << 38) | (1 << 39));
    assert_eq!(Generator::pawn_attacks(a1, Color::White).0, 1 << 9);
    assert_eq!(Generator::pawn_attacks(h4, Color::White).0, 1 << 38);
    assert_eq!(Generator::pawn_attacks(h4, Color::Black).0, 1 << 22);
    assert_eq!(Generator::pawn_attacks(h8, Color::White).0, 0);
    assert_eq!(Generator::pawn_attacks(a1, Color::Black).0, 0);
    assert_eq!(Generator::pawn_attacks(Square::at(1, 3).unwrap(), Color::White).0, (1 << 18) | (1 << 20));
}

#[test]
fn rays_end_on_the_first_blocker() {
    let d4 = Square::at(3, 3).unwrap();
    let blockers = BitBoard((1 << 43) | (1 << 25) | (1 << 59));
    let straight = Generator::sliding_attacks::<1>(d4, blockers);
    // north up to d6, south to d1, east to h4, west up to b4
    assert_eq!(straight[0].0, (1 << 35) | (1 << 43));
    assert_eq!(straight[1].0, (1 << 19) | (1 << 11) | (1 << 3));
    assert_eq!(straight[2].0, (1 << 28) | (1 << 29) | (1 << 30) | (1 << 31));
    assert_eq!(straight[3].0, (1 << 26) | (1 << 25));
    let diagonal = Generator::sliding_attacks::<0>(d4, BitBoard(1 << 45));
    assert_eq!(diagonal[0].0, (1 << 36) | (1 << 45));
    assert_eq!(diagonal[1].0, (1 << 34) | (1 << 41) | (1 << 48));
    assert_eq!(diagonal[2].0, (1 << 20) | (1 << 13) | (1 << 6));
    assert_eq!(diagonal[3].0, (1 << 18) | (1 << 9) | (1 << 0));
}

#[test]
fn empty_records() {
    let ext = BoardExt::default();
    assert!(ext.king_bb.is_empty());
    assert!((0..64).all(|i| ext.get(Square::from_index_unchecked(i)).is_none()));
    assert_eq!(
        PseudoScore::default(),
        PseudoScore { pieces: 0, position: 0, attacked: 0, attack: 0 }
    );
}

#[test]
fn boards_as_text() {
    let board = Board::starting_position();
    assert_eq!(
        board.to_string(),
        " a  b  c  d  e  f  g  h\n\
         \x20r  n  b  q  k  b  n  r \n\
         \x20p  p  p  p  p  p  p  p \n\
         \x20_  _  _  _  _  _  _  _ \n\
         \x20_  _  _  _  _  _  _  _ \n\
         \x20_  _  _  _  _  _  _  _ \n\
         \x20_  _  _  _  _  _  _  _ \n\
         \x20P  P  P  P  P  P  P  P \n\
         \x20R  N  B  Q  K  B  N  R \n"
    );
    assert_eq!(
        BitBoard(0x8000_0000_0000_0103).to_string(),
        "0 0 0 0 0 0 0 1 \n\
         0 0 0 0 0 0 0 0 \n\
         0 0 0 0 0 0 0 0 \n\
         0 0 0 0 0 0 0 0 \n\
         0 0 0 0 0 0 0 0 \n\
         0 0 0 0 0 0 0 0 \n\
         1 0 0 0 0 0 0 0 \n\
         1 1 0 0 0 0 0 0 \n"
    );
}
