use c4e5chess::{greet, ChessEngine};

const START: &str = "rnbqkbnr/pppppppp/8/8/8/8/PPPPPPPP/RNBQKBNR w KQkq - 0 1";
const FOOLS_MATE: &str = "rnb1kbnr/pppp1ppp/8/4p3/6Pq/5P2/PPPPP2P/RNBQKBNR w KQkq - 1 3";
const STALEMATE: &str = "7k/5Q2/6K1/8/8/8/8/8 b - - 0 1";

fn prefer(target: &'static str) -> impl Fn(&str, &str, i16, &Vec<u64>) -> (i32, u64) {
    move |_fen: &str, m: &str, _d: i16, _h: &Vec<u64>| {
        if m == target { (50, 1) } else { (0, 1) }
    }
}

#[test]
fn new_engine_is_at_the_start() {
    let e = ChessEngine::new();
    assert_eq!(e.get_position_fen(), START);
    assert_eq!(e.get_side_to_move(), "white");
    assert_eq!(e.get_move_number(), 0);
    assert_eq!(e.get_game_status(), "ongoing");
    assert!(!e.is_game_over());
}

#[test]
fn set_position_fen_accepts_and_refuses() {
    let mut e = ChessEngine::new();
    assert!(e.set_position_fen(FOOLS_MATE));
    assert_eq!(e.get_position_fen(), FOOLS_MATE);
    assert!(!e.set_position_fen("nonsense"));
    assert_eq!(e.get_position_fen(), FOOLS_MATE);
}

#[test]
fn status_names() {
    let mut e = ChessEngine::new();
    e.set_position_fen(FOOLS_MATE);
    assert_eq!(e.get_game_status(), "checkmate");
    assert!(e.is_game_over());
    e.set_position_fen(STALEMATE);
    assert_eq!(e.get_game_status(), "stalemate");
    assert_eq!(e.get_side_to_move(), "black");
}

#[test]
fn apply_moves_plays_in_order() {
    let mut e = ChessEngine::new();
    assert!(e.apply_moves("e2e4,e7e5  g1f3"));
    assert_eq!(e.get_move_number(), 2);
    assert_eq!(e.get_side_to_move(), "black");
    assert!(e.apply_moves(""));
}

#[test]
fn apply_moves_stops_at_a_bad_move() {
    let mut e = ChessEngine::new();
    assert!(!e.apply_moves("e2e4 zz e7e5"));
    assert_eq!(e.get_side_to_move(), "black");
    assert_eq!(e.get_move_number(), 1);
    assert!(!e.apply_moves("e7e4"));
    assert_eq!(e.get_side_to_move(), "black");
}

#[test]
fn make_move_and_castling() {
    let mut e = ChessEngine::new();
    assert!(e.set_position_fen("r3k2r/8/8/8/8/8/8/R3K2R w KQkq - 0 1"));
    assert!(e.make_move("e1g1"));
    assert_eq!(e.get_position_fen(), "r3k2r/8/8/8/8/8/8/R4RK1 b kq - 1 1");
    assert!(!e.make_move("e1e2"));
    assert!(!e.make_move("hello"));
    assert_eq!(e.get_position_fen(), "r3k2r/8/8/8/8/8/8/R4RK1 b kq - 1 1");
}

#[test]
fn legal_moves_listing() {
    let e = ChessEngine::new();
    assert_eq!(e.get_legal_moves().split(',').count(), 20);
    assert_eq!(e.get_moves_for_square("g1"), "g1f3,g1h3");
    assert_eq!(e.get_moves_for_square("e1"), "");
    assert_eq!(e.get_moves_for_square("z9"), "");
    assert_eq!(e.get_moves_for_square("e2x"), "");
}

#[test]
fn find_best_move_reports_without_playing() {
    let mut e = ChessEngine::new();
    assert_eq!(e.find_best_move(2, 1000, &prefer("c2c4"), &|| true), "c2c4");
    assert_eq!(e.get_position_fen(), START);
    e.set_position_fen(FOOLS_MATE);
    assert_eq!(e.find_best_move(2, 1000, &prefer("c2c4"), &|| true), "(none)");
}

#[test]
fn find_best_move_with_time_sets_the_clock() {
    let mut e = ChessEngine::new();
    let best = e.find_best_move_with_time(1, 40_000, 10_000, 0, 0, &prefer("b1c3"), &|| true);
    assert_eq!(best, "b1c3");
    assert_eq!(e.game.move_time, 2_000);
    assert_eq!(e.tm.black_time, 10_000);
}

#[test]
fn reset_and_startpos() {
    let mut e = ChessEngine::new();
    e.apply_moves("e2e4 e7e5");
    e.reset();
    assert_eq!(e.get_position_fen(), START);
    assert_eq!(e.get_move_number(), 0);
    e.apply_moves("d2d4");
    e.set_position_startpos();
    assert_eq!(e.get_position_fen(), START);
}

#[test]
fn greeting() {
    assert_eq!(greet("World"), "Hello, World!");
    assert_eq!(greet(""), "Hello, !");
}

#[test]
fn legal_moves_of_the_start_position() {
    let e = ChessEngine::new();
    let listed = e.get_legal_moves();
    let moves: Vec<&str> = listed.split(',').collect();
    assert_eq!(moves.len(), 20);
    for m in ["a2a3", "a2a4", "b1a3", "b1c3", "g1f3", "g1h3", "e2e4", "h2h4"] {
        assert!(moves.contains(&m));
    }
    assert_eq!(e.get_moves_for_square("e2"), "e2e3,e2e4");
}

#[test]
fn no_legal_moves_when_checkmated() {
    let mut e = ChessEngine::new();
    e.set_position_fen(FOOLS_MATE);
    assert_eq!(e.get_legal_moves(), "");
    e.set_position_fen(STALEMATE);
    assert!(e.is_game_over());
}

#[test]
fn make_move_plays_and_refuses() {
    let mut e = ChessEngine::new();
    assert!(e.make_move("e2e4"));
    assert_eq!(e.get_position_fen(), "rnbqkbnr/pppppppp/8/8/4P3/8/PPPP1PPP/RNBQKBNR b KQkq e3 0 1");
    assert_eq!(e.get_move_number(), 1);
    assert!(!e.make_move("e2e5"));
    assert_eq!(e.get_move_number(), 1);
}

#[test]
fn set_position_fen_keeps_the_written_form() {
    let mut e = ChessEngine::new();
    assert!(e.set_position_fen("rnbqkbnr/pppppppp/8/8/8/8/PPPPPPPP/RNBQKBNR w HAha - 0 1"));
    assert_eq!(e.get_position_fen(), START);
    assert!(!e.set_position_fen("not a fen"));
    assert_eq!(e.get_position_fen(), START);
}

#[test]
fn apply_moves_is_make_move_in_turn() {
    let mut a = ChessEngine::new();
    let mut b = ChessEngine::new();
    assert!(a.apply_moves("d2d4 d7d5 c2c4"));
    assert!(b.make_move("d2d4") && b.make_move("d7d5") && b.make_move("c2c4"));
    assert_eq!(a.get_position_fen(), b.get_position_fen());
    assert_eq!(a.get_move_number(), b.get_move_number());
    assert_eq!(a.game.game_history.h, b.game.game_history.h);
}

#[test]
fn find_best_move_with_time_for_black() {
    let mut e = ChessEngine::new();
    e.make_move("e2e4");
    let best = e.find_best_move_with_time(0, 40_000, 10_000, 0, 1_000, &prefer("e7e5"), &|| true);
    assert_eq!(best, "e7e5");
    // black at move 1: 10000 / 20 + 1000 / 2
    assert_eq!(e.game.move_time, 1_000);
}

#[test]
fn set_position_fen_needs_six_fields() {
    let mut e = ChessEngine::new();
    assert!(!e.set_position_fen("rnbqkbnr/pppppppp/8/8/8/8/PPPPPPPP/RNBQKBNR w KQkq - 0 1 extra"));
    assert!(!e.set_position_fen("rnbqkbnr/pppppppp/8/8/8/8/PPPPPPPP/RNBQKBNR w KQkq - 0"));
    assert!(!e.set_position_fen("rnbqkbnr/pppppppp/8/8/8/8/PPPPPPPP/RNBQKBNR  w KQkq - 0 1"));
    assert_eq!(e.get_position_fen(), START);
}
