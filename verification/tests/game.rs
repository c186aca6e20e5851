use c4e5chess::chess::Side;
use c4e5chess::types::{DEFAULT_TIME, INIT_MAX_DEPTH};
use c4e5chess::{Game, TimeManagement};
use c4e5chess::chess::Position;

const START: &str = "rnbqkbnr/pppppppp/8/8/8/8/PPPPPPPP/RNBQKBNR w KQkq - 0 1";
const FOOLS_MATE: &str = "rnb1kbnr/pppp1ppp/8/4p3/6Pq/5P2/PPPPP2P/RNBQKBNR w KQkq - 1 3";

fn prefer(target: &'static str) -> impl Fn(&str, &str, i16, &Vec<u64>) -> (i32, u64) {
    move |_fen: &str, m: &str, _d: i16, _h: &Vec<u64>| {
        if m == target { (50, 10) } else { (-10, 10) }
    }
}

#[test]
fn new_game_defaults() {
    let g = Game::new(String::new(), 0, 0);
    assert_eq!(g.max_depth, INIT_MAX_DEPTH);
    assert_eq!(g.move_time, DEFAULT_TIME);
    assert_eq!(g.move_number, 0);
    assert_eq!(g.node_count, 0);
    assert_eq!(g.board.fen, START);
    assert!(g.game_history.h.is_empty());
}

#[test]
fn new_game_from_fen() {
    let g = Game::new(FOOLS_MATE.to_string(), 3, 700);
    assert_eq!(g.max_depth, 3);
    assert_eq!(g.move_time, 700);
    assert_eq!(g.board.fen, FOOLS_MATE);
}

#[test]
fn new_game_with_bad_fen_is_the_default_game() {
    let g = Game::new("not a fen".to_string(), 3, 700);
    assert_eq!(g.max_depth, INIT_MAX_DEPTH);
    assert_eq!(g.move_time, DEFAULT_TIME);
    assert_eq!(g.board.fen, START);
}

#[test]
fn default_game() {
    let g = Game::default();
    assert_eq!(g.max_depth, INIT_MAX_DEPTH);
    assert_eq!(g.board.fen, START);
}

#[test]
fn find_move_takes_the_best_scored_move() {
    let mut g = Game::new(String::new(), 2, 1000);
    let best = g.find_move(&prefer("e2e4"), &|| true);
    assert_eq!(best, Some("e2e4".to_string()));
    // 20 moves at depth 0, 1 and 2 (no pruning before depth 3), 10 nodes each
    assert_eq!(g.node_count, 600);
    assert_eq!(g.board.fen, START);
}

#[test]
fn find_move_in_checkmate_finds_nothing() {
    let mut g = Game::new(FOOLS_MATE.to_string(), 2, 1000);
    assert_eq!(g.find_move(&prefer("e2e4"), &|| true), None);
}

#[test]
fn find_move_with_one_legal_move_needs_no_search() {
    // white king on a1 in check from a rook on a8 with only b1... use a forced position
    let fen = "k7/8/8/8/8/8/1r6/K7 w - - 0 1";
    let mut g = Game::new(fen.to_string(), 4, 1000);
    let never = |_fen: &str, _m: &str, _d: i16, _h: &Vec<u64>| -> (i32, u64) { panic!("no search expected") };
    let best = g.find_move(&never, &|| true);
    assert_eq!(best, Some("a1b2".to_string()));
    assert_eq!(g.node_count, 0);
}

#[test]
fn find_move_scores_outside_the_window_are_held() {
    let mut g = Game::new(String::new(), 0, 1000);
    let wild = |_fen: &str, m: &str, _d: i16, _h: &Vec<u64>| -> (i32, u64) {
        if m == "g1f3" { (i32::MAX, 1) } else { (i32::MIN, 1) }
    };
    assert_eq!(g.find_move(&wild, &|| true), Some("g1f3".to_string()));
}

#[test]
fn set_game_time_uses_side_to_move() {
    let mut tm = TimeManagement { white_time: 60_000, black_time: 20_000, white_inc: 0, black_inc: 2_000, moves_to_go: 0 };
    let mut g = Game::new("rnbqkbnr/pppppppp/8/8/4P3/8/PPPP1PPP/RNBQKBNR b KQkq e3 0 1".to_string(), 0, 0);
    g.move_number = 40;
    tm.set_game_time(&mut g);
    // black: 20000 / 40 + 2000 / 2 = 1500
    assert_eq!(g.move_time, 1_500);
    assert_eq!(tm.allotted_time(Side::Black, 40), 1_500);
}

#[test]
fn set_game_time_keeps_the_margin() {
    let mut tm = TimeManagement { white_time: 150, black_time: 0, white_inc: 10_000, black_inc: 0, moves_to_go: 0 };
    let mut g = Game::new(String::new(), 0, 0);
    tm.set_game_time(&mut g);
    assert_eq!(g.move_time, 100);
    tm.white_time = 10_000;
    tm.set_game_time(&mut g);
    // 10000 / 20 + 5000 = 5500 is more than 10000 - 100? no: 5500 stays
    assert_eq!(g.move_time, 5_500);
    tm.white_time = 1_000;
    tm.set_game_time(&mut g);
    // 50 + 5000 is cut to 1000 - 100
    assert_eq!(g.move_time, 900);
}

#[test]
fn history_records_positions() {
    let mut g = Game::default();
    let b = Position { fen: g.board.fen.clone() };
    g.game_history.inc(&b);
    g.game_history.inc(&b);
    let key = START.parse::<cozy_chess::Board>().unwrap().hash();
    assert_eq!(g.game_history.h, vec![key, key]);
    g.game_history.record(7);
    assert_eq!(g.game_history.h.len(), 3);
    assert_eq!(g.game_history.h[2], 7);
}

#[test]
fn history_skips_a_text_that_is_no_position() {
    let mut g = Game::default();
    g.game_history.inc(&Position { fen: "no position".to_string() });
    assert!(g.game_history.h.is_empty());
}

#[test]
fn find_move_stops_with_nothing_when_time_runs_out_at_once() {
    let mut g = Game::new(String::new(), 3, 1000);
    assert_eq!(g.find_move(&prefer("e2e4"), &|| false), None);
    // the first iteration was searched and its nodes counted
    assert_eq!(g.node_count, 200);
}

#[test]
fn find_move_with_negative_depth_finds_nothing() {
    let mut g = Game::new(String::new(), -1, 1000);
    assert_eq!(g.find_move(&prefer("e2e4"), &|| true), None);
}

#[test]
fn find_move_hands_the_position_and_the_move_to_the_search() {
    let mut g = Game::new(FOOLS_MATE.to_string(), 1, 1000);
    g.max_depth = 0;
    g.board = Position { fen: START.to_string() };
    let check = |fen: &str, m: &str, d: i16, _h: &Vec<u64>| -> (i32, u64) {
        assert_eq!(fen, START);
        assert_eq!(d, 0);
        if m == "b1c3" { (7, 1) } else { (0, 1) }
    };
    assert_eq!(g.find_move(&check, &|| true), Some("b1c3".to_string()));
}

#[test]
fn play_move_plays_legal_moves_only() {
    let mut g = Game::default();
    assert!(g.play_move("e2e4"));
    assert_eq!(g.board.fen, "rnbqkbnr/pppppppp/8/8/4P3/8/PPPP1PPP/RNBQKBNR b KQkq e3 0 1");
    // White moved: the move number goes up
    assert_eq!(g.move_number, 1);
    assert_eq!(g.game_history.h.len(), 1);
    assert!(!g.play_move("e2e4"));
    assert!(!g.play_move("e7e4"));
    assert!(!g.play_move("xx"));
    assert_eq!(g.move_number, 1);
    assert_eq!(g.game_history.h.len(), 1);
    assert!(g.play_move("e7e5"));
    // Black moved: the move number stays
    assert_eq!(g.move_number, 1);
    assert_eq!(g.game_history.h.len(), 2);
}

#[test]
fn play_moves_stops_at_the_first_illegal_move() {
    let mut g = Game::default();
    let ms: Vec<String> = ["x", "e2e4", "e7e5", "e2e4", "g1f3"].iter().map(|s| s.to_string()).collect();
    assert!(!g.play_moves(&ms, 1));
    assert_eq!(g.board.fen, "rnbqkbnr/pppp1ppp/8/4p3/4P3/8/PPPP1PPP/RNBQKBNR w KQkq e6 0 2");
    assert_eq!(g.move_number, 1);
    assert_eq!(g.game_history.h.len(), 2);
    let mut h = Game::default();
    assert!(h.play_moves(&ms, 5));
    assert_eq!(h.board.fen, START);
}

#[test]
fn find_move_hands_the_history_to_the_search() {
    let mut g = Game::new(String::new(), 0, 1000);
    g.max_depth = 0;
    assert!(g.play_move("e2e4"));
    let key = START.parse::<cozy_chess::Board>().unwrap().hash();
    let check = move |_fen: &str, m: &str, _d: i16, h: &Vec<u64>| -> (i32, u64) {
        assert_eq!(h, &vec![key]);
        if m == "c7c5" { (3, 1) } else { (0, 1) }
    };
    assert_eq!(g.find_move(&check, &|| true), Some("c7c5".to_string()));
}

fn mate_finder(fen: &str, m: &str, _d: i16, _h: &Vec<u64>) -> (i32, u64) {
    let mut board: cozy_chess::Board = fen.parse().unwrap();
    let mv = cozy_chess::util::parse_uci_move(&board, m).unwrap();
    board.play(mv);
    if board.status() == cozy_chess::GameStatus::Won { (1_000_000, 1) } else { (0, 1) }
}

#[test]
fn find_move_plays_the_mate_in_the_scholars_mate_setup() {
    let fen = "r1bqkb1r/pppp1ppp/2n2n2/4p2Q/2B1P3/8/PPPP1PPP/RNB1K1NR w KQkq - 4 4";
    let mut g = Game::new(fen.to_string(), 3, 10_000);
    assert_eq!(g.find_move(&mate_finder, &|| true), Some("h5f7".to_string()));
    // a mate score ends the search after the first iteration, its nodes not counted
    assert_eq!(g.node_count, 0);
}

#[test]
fn find_move_always_finds_a_move_while_time_is_left() {
    for depth in 0..5 {
        let mut g = Game::new(String::new(), 1, 1000);
        g.max_depth = depth;
        assert!(g.find_move(&prefer("a2a3"), &|| true).is_some());
    }
}
