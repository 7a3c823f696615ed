use sealion::fen;
use sealion::{BitBoard, Generator, MoveList, Position, PositionState, Square};

struct MoveTester {
    pub name: &'static str,
    pub sq: (u8, u8),
    pub fen: &'static str,
    pub result: u64,
}

impl MoveTester {
    pub fn do_gen<F>(&self, f: F)
    where
        F: Fn(Generator<'_>, Square) -> BitBoard,
    {
        let position = fen::from_str(self.fen)
            .expect(&format!("`{}` failed due to bad fen", self.name));
        assert!(position.is_valid(), "`{}` failed due to bad position", self.name);
        let state = PositionState::generate(&position);
        let square = Square::try_from(self.sq)
            .expect(&format!("`{}` failed due to bad square", self.name));
        let generator = Generator::new(&state);

        let result = f(generator, square);
        assert_eq!(result.0, self.result, "`{}` failed", self.name);
    }
}

fn bishop_cases() -> [MoveTester; 1] {
    [MoveTester {
        name: "start with bishop",
        sq: (4, 5),
        fen: "rnbqkbnr/pppppppp/8/8/8/8/PPPPPPPP/RNBQKBNR w KQkq - 0 1",
        result: 0x88_50_00_50_88_00_00,
    }]
}

fn rook_cases() -> [MoveTester; 1] {
    [MoveTester {
        name: "start with bishop",
        sq: (4, 5),
        fen: "rnbqkbnr/pppppppp/8/8/8/8/PPPPPPPP/RNBQKBNR w KQkq - 0 1",
        result: 0x20_20_df_20_20_00_00,
    }]
}

fn knight_cases() -> [MoveTester; 1] {
    [MoveTester {
        name: "knight middle",
        sq: (3, 3),
        fen: "rnbqkbnr/pppppppp/8/8/8/8/PPPPPPPP/RNBQKBNR w KQkq - 0 1",
        result: 0x14_22_00_22_00_00,
    }]
}

fn pawn_cases() -> [MoveTester; 2] {
    [
        MoveTester {
            name: "ep white",
            sq: (4, 3),
            fen: "rnbqkbnr/pppp1ppp/8/3Pp3/8/8/PPP1PPPP/RNBQKBNR w KQkq e6 0 1",
            result: 0x18_00_00_00_00_00,
        },
        MoveTester {
            name: "ep black",
            sq: (3, 4),
            fen: "rnbqkbnr/pppp1ppp/8/8/3Pp3/8/PPP1PPPP/RNBQKBNR b KQkq d3 0 1",
            result: 0x18_00_00,
        },
    ]
}

// A king on the a-file has no neighbour on the h-file: a4, b5, a6 and b6 are left
// once b4, which holds a white pawn, is taken out.
fn king_cases() -> [MoveTester; 2] {
    [
        MoveTester {
            name: "king middle",
            sq: (3, 3),
            fen: "rnbqkbnr/pppppppp/8/8/3K4/8/PPPPPPPP/RNBQ1BNR w kq - 0 1",
            result: 0x1c_14_1c_00_00,
        },
        MoveTester {
            name: "king side",
            sq: (4, 0),
            fen: "rnbqkbnr/pppp1ppp/8/K3p3/1P6/8/PP1PPPPP/RNBQ1BNR w kq - 0 1",
            result: 0x03_02_01_00_00_00,
        },
    ]
}

fn starting_moves() {
    let position = Position::starting();
    let state = PositionState::generate(&position);
    let moves = MoveList::generate(&state);

    match moves {
        MoveList::Moves(moves) => {
            assert_eq!(moves.len(), 20)
        }
        _ => panic!("starting position is not mate"),
    }
}

#[test]
fn mod_bishop_moves() {
    for test in bishop_cases() {
        test.do_gen(|gen, sq| gen.pseudo_bishop_moves(sq));
    }
}

#[test]
fn mod_rook_moves() {
    for test in rook_cases() {
        test.do_gen(|gen, sq| gen.pseudo_rook_moves(sq));
    }
}

#[test]
fn mod_knight_moves() {
    for test in knight_cases() {
        test.do_gen(|gen, sq| gen.pseudo_knight_moves(sq));
    }
}

#[test]
fn mod_pawn_moves() {
    for test in pawn_cases() {
        test.do_gen(|gen, sq| gen.pseudo_pawn_moves(sq));
    }
}

#[test]
fn mod_king_moves() {
    for test in king_cases() {
        test.do_gen(|gen, sq| gen.pseudo_king_moves(sq));
    }
}

#[test]
fn mod_full_move_gen() {
    starting_moves();
}

#[test]
fn lib_bishop_moves() {
    for test in bishop_cases() {
        test.do_gen(|gen, sq| gen.pseudo_bishop_moves(sq));
    }
}

#[test]
fn lib_rook_moves() {
    for test in rook_cases() {
        test.do_gen(|gen, sq| gen.pseudo_rook_moves(sq));
    }
}

#[test]
fn lib_knight_moves() {
    for test in knight_cases() {
        test.do_gen(|gen, sq| gen.pseudo_knight_moves(sq));
    }
}

#[test]
fn lib_pawn_moves() {
    for test in pawn_cases() {
        test.do_gen(|gen, sq| gen.pseudo_pawn_moves(sq));
    }
}

#[test]
fn lib_king_moves() {
    for test in king_cases() {
        test.do_gen(|gen, sq| gen.pseudo_king_moves(sq));
    }
}

#[test]
fn lib_full_move_gen() {
    starting_moves();
}
