use sealion::fen;
use sealion::{MoveList, Position, PositionState};

fn perft(position: &Position, depth: usize) -> usize {
    if depth == 0 {
        return 1;
    }

    let mut nodes = 0;
    let state = PositionState::generate(position);

    if let MoveList::Moves(moves) = MoveList::generate(&state) {
        for p_move in moves.into_iter() {
            let mut new_position = position.clone();
            new_position.apply_move_unchecked(p_move);
            nodes += perft(&new_position, depth - 1);
        }
    }

    nodes
}

fn do_perft_x(x: usize, result: usize) {
    let position = Position::starting();
    let nodes = perft(&position, x);
    assert_eq!(nodes, result);
}

fn do_perft(fen: &str, x: usize, result: usize) {
    let position = fen::from_str(fen).unwrap();
    assert!(position.is_valid());
    let nodes = perft(&position, x);
    assert_eq!(nodes, result);
}

const POS_5: &str = "rnbq1k1r/pp1Pbppp/2p5/8/2B5/8/PPP1NnPP/RNBQK2R w KQ - 1 8";
const KIWIPETE: &str = "r3k2r/p1ppqpb1/bn2pnp1/3PN3/1p2P3/2N2Q1p/PPPBBPPP/R3K2R w KQkq - 0 1";
const POS_3: &str = "8/2p5/3p4/KP5r/1R3p1k/8/4P1P1/8 w - - 0 1";
const POS_4: &str = "r3k2r/Pppp1ppp/1b3nbN/nP6/BBP1P3/q4N2/Pp1P2PP/R2Q1RK1 w kq - 0 1";

#[test]
fn do_perft_3() {
    do_perft_x(3, 8_902)
}

#[test]
fn do_perft_4() {
    do_perft_x(4, 197_281)
}

#[test]
fn do_perft_5() {
    do_perft_x(5, 4_865_609)
}

#[test]
fn pos_5_perft_1() {
    do_perft(POS_5, 1, 44);
}

#[test]
fn pos_5_perft_2() {
    do_perft(POS_5, 2, 1_486);
}

#[test]
fn pos_5_perft_3() {
    do_perft(POS_5, 3, 62_379);
}

#[test]
fn pos_5_perft_4() {
    do_perft(POS_5, 4, 2_103_487);
}

#[test]
fn kiwipete_perft_3() {
    do_perft(KIWIPETE, 1, 48);
    do_perft(KIWIPETE, 2, 2_039);
    do_perft(KIWIPETE, 3, 97_862);
}

// En passant captures that would open the fifth rank onto the king are left out.
#[test]
fn pos_3_perft_4() {
    do_perft(POS_3, 1, 14);
    do_perft(POS_3, 2, 191);
    do_perft(POS_3, 3, 2_812);
    do_perft(POS_3, 4, 43_238);
}

#[test]
fn pos_4_perft_3() {
    do_perft(POS_4, 1, 6);
    do_perft(POS_4, 2, 264);
    do_perft(POS_4, 3, 9_467);
}
