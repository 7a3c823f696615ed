use sealion::fen::{self, FenError};
use sealion::{Color, Piece, PieceKind, Position, Square};

const START: &str = "rnbqkbnr/pppppppp/8/8/8/8/PPPPPPPP/RNBQKBNR w KQkq - 0 1";

#[test]
fn start_record_is_the_starting_position() {
    assert_eq!(fen::from_str(START), Ok(Position::starting()));
    assert_eq!(fen::parse(START), Ok((START.len(), Position::starting())));
}

#[test]
fn spaces_and_what_follows_are_passed_over() {
    let padded = "  \trnbqkbnr/pppppppp/8/8/8/8/PPPPPPPP/RNBQKBNR  w \t KQkq  -  0   1 and more";
    assert_eq!(fen::from_str(padded), Ok(Position::starting()));
    let (end, _) = fen::parse(padded).unwrap();
    assert_eq!(&padded[end..], " and more");
}

#[test]
fn fields_are_read() {
    let p = fen::from_str("8/8/8/3pP3/8/8/8/K6k w Kq d6 12 345").unwrap();
    assert_eq!(p.active_color, Color::White);
    assert_eq!(p.castling.bits(), 0x09);
    assert_eq!(p.ep_target, Square::at(5, 3));
    assert_eq!(p.halfmove_clock, 12);
    assert_eq!(p.fullmove_counter, 345);
    assert_eq!(
        p.board.get(Square::at(4, 3).unwrap()),
        Some(Piece { color: Color::Black, kind: PieceKind::Pawn })
    );
    assert_eq!(
        p.board.get(Square::at(4, 4).unwrap()),
        Some(Piece { color: Color::White, kind: PieceKind::Pawn })
    );
    assert_eq!(
        p.board.get(Square::at(0, 7).unwrap()),
        Some(Piece { color: Color::Black, kind: PieceKind::King })
    );
    assert_eq!(p.board.get_full_bb().popcount(), 4);
    // the rights name rooks that are not there
    assert!(!p.is_valid());

    let p = fen::from_str("8/8/8/3pP3/8/8/8/K6k B - zz 255 65535").unwrap();
    assert_eq!(p.active_color, Color::Black);
    assert_eq!(p.castling.bits(), 0);
    assert_eq!(p.ep_target, None);
    assert_eq!(p.halfmove_clock, 255);
    assert_eq!(p.fullmove_counter, 65535);
    assert!(p.is_valid());
}

#[test]
fn each_field_has_its_error() {
    let cases = [
        ("", FenError::Placement),
        ("   ", FenError::Placement),
        ("rnbqkbnr/pppppppp/8/8/8/8/PPPPPPPP w KQkq - 0 1", FenError::Placement),
        ("rnbqkbnr/pppppppp/9/8/8/8/PPPPPPPP/RNBQKBNR w KQkq - 0 1", FenError::Placement),
        ("rnbqkbnr/pppppppp/44p/8/8/8/PPPPPPPP/RNBQKBNR w KQkq - 0 1", FenError::Placement),
        ("rnbqkbnr/pppppppp/7/8/8/8/PPPPPPPP/RNBQKBNR w KQkq - 0 1", FenError::Placement),
        ("rnbqkbnr/ppppxppp/8/8/8/8/PPPPPPPP/RNBQKBNR w KQkq - 0 1", FenError::Placement),
        ("rnbqkbnr//pppppppp/8/8/8/8/PPPPPPPP/RNBQKBNR w KQkq - 0 1", FenError::Placement),
        ("rnbqkbnr/pppppppp/8/8/8/8/PPPPPPPP/RNBQKBNR/ w KQkq - 0 1", FenError::Placement),
        ("rnbqkbnr/pppppppp/8/8/8/8/PPPPPPPP/RNBQKBNR", FenError::ActiveColor),
        ("rnbqkbnr/pppppppp/8/8/8/8/PPPPPPPP/RNBQKBNR x KQkq - 0 1", FenError::ActiveColor),
        ("rnbqkbnr/pppppppp/8/8/8/8/PPPPPPPP/RNBQKBNR ww KQkq - 0 1", FenError::ActiveColor),
        ("rnbqkbnr/pppppppp/8/8/8/8/PPPPPPPP/RNBQKBNR w", FenError::Castling),
        ("rnbqkbnr/pppppppp/8/8/8/8/PPPPPPPP/RNBQKBNR w KQxq - 0 1", FenError::Castling),
        ("rnbqkbnr/pppppppp/8/8/8/8/PPPPPPPP/RNBQKBNR w KQkq", FenError::EnPassant),
        ("rnbqkbnr/pppppppp/8/8/8/8/PPPPPPPP/RNBQKBNR w KQkq -", FenError::HalfmoveClock),
        ("rnbqkbnr/pppppppp/8/8/8/8/PPPPPPPP/RNBQKBNR w KQkq - x 1", FenError::HalfmoveClock),
        ("rnbqkbnr/pppppppp/8/8/8/8/PPPPPPPP/RNBQKBNR w KQkq - 256 1", FenError::HalfmoveClock),
        ("rnbqkbnr/pppppppp/8/8/8/8/PPPPPPPP/RNBQKBNR w KQkq - 0", FenError::FullmoveCounter),
        ("rnbqkbnr/pppppppp/8/8/8/8/PPPPPPPP/RNBQKBNR w KQkq - 0 1x", FenError::FullmoveCounter),
        ("rnbqkbnr/pppppppp/8/8/8/8/PPPPPPPP/RNBQKBNR w KQkq - 0 65536", FenError::FullmoveCounter),
    ];
    for (record, error) in cases {
        assert_eq!(fen::from_str(record), Err(error), "{record}");
        assert_eq!(fen::parse(record), Err(error), "{record}");
    }
}

#[test]
fn validity_is_tested_not_assumed() {
    // no kings
    assert!(!fen::from_str("8/8/8/8/8/8/8/8 w - - 0 1").unwrap().is_valid());
    // two white kings
    assert!(!fen::from_str("7k/8/8/8/8/8/8/KK6 w - - 0 1").unwrap().is_valid());
    // an en passant target with no pawn in front of it
    assert!(!fen::from_str("7k/8/8/8/8/8/8/K7 w - e6 0 1").unwrap().is_valid());
    // an en passant target on the wrong rank for the side to move
    assert!(!fen::from_str("7k/8/8/4p3/8/8/8/K7 b - e6 0 1").unwrap().is_valid());
    assert!(fen::from_str("7k/8/8/4p3/8/8/8/K7 w - e6 0 1").unwrap().is_valid());
    // a right to castle without the rook
    assert!(!fen::from_str("4k3/8/8/8/8/8/8/4K3 w K - 0 1").unwrap().is_valid());
    assert!(fen::from_str("4k3/8/8/8/8/8/8/4K2R w K - 0 1").unwrap().is_valid());
    assert!(Position::starting().is_valid());
}
