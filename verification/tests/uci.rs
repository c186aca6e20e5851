use c4e5chess::uci::{nine_tenths, UciAction};
use c4e5chess::Cli;

const FOOLS_MATE: &str = "rnb1kbnr/pppp1ppp/8/4p3/6Pq/5P2/PPPPP2P/RNBQKBNR w KQkq - 1 3";

fn words(s: &str) -> Vec<String> {
    s.split_whitespace().map(|w| w.to_string()).collect()
}

fn prefer(target: &'static str) -> impl Fn(&str, &str, i16, &Vec<u64>) -> (i32, u64) {
    move |_fen: &str, m: &str, _d: i16, _h: &Vec<u64>| {
        if m == target { (50, 1) } else { (0, 1) }
    }
}

#[test]
fn uci_is_answered_with_identity() {
    let mut cli = Cli::new();
    match cli.handle("uci") {
        UciAction::Reply(lines) => assert_eq!(
            lines,
            vec!["id name C4-E5 Chess", "id author Eugen Lindorfer", "option", "uciok"]
        ),
        _ => panic!("expected a reply"),
    }
}

#[test]
fn isready_quit_and_others() {
    let mut cli = Cli::default();
    match cli.handle("  isready ") {
        UciAction::Reply(lines) => assert_eq!(lines, vec!["readyok"]),
        _ => panic!("expected a reply"),
    }
    assert!(matches!(cli.handle("quit"), UciAction::Quit));
    assert!(matches!(cli.handle(""), UciAction::Idle));
    assert!(matches!(cli.handle("ucinewgame"), UciAction::Idle));
}

#[test]
fn go_sets_clocks_depth_and_move_time() {
    let mut cli = Cli::new();
    let action = cli.handle("go wtime 60000 btime 30000 winc 1000 binc 500 movestogo 20 depth 6");
    assert!(matches!(action, UciAction::Search));
    assert_eq!(cli.tm.white_time, 60_000);
    assert_eq!(cli.tm.black_time, 30_000);
    assert_eq!(cli.tm.white_inc, 1_000);
    assert_eq!(cli.tm.black_inc, 500);
    assert_eq!(cli.tm.moves_to_go, 20);
    assert_eq!(cli.game.max_depth, 6);
    // white to move: 60000 / 20 + 1000 / 2
    assert_eq!(cli.game.move_time, 3_500);
}

#[test]
fn go_movetime_is_honoured() {
    let mut cli = Cli::new();
    cli.go(&words("movetime 1000"));
    // the time less a tenth, not the clock's
    assert_eq!(cli.game.move_time, 900);
    cli.go(&words("wtime 60000 movetime 50"));
    assert_eq!(cli.game.move_time, 45);
    cli.go(&words("wtime 60000"));
    assert_eq!(cli.game.move_time, 3_000);
    assert_eq!(nine_tenths(1000), 900);
    assert_eq!(nine_tenths(u64::MAX), 16_602_069_666_338_596_453);
}

#[test]
fn go_stops_at_a_bad_value_or_unknown_word() {
    let mut cli = Cli::new();
    cli.go(&words("wtime abc btime 5"));
    assert_eq!(cli.tm.white_time, 0);
    assert_eq!(cli.tm.black_time, 0);
    cli.go(&words("nodes 100 btime 5"));
    assert_eq!(cli.tm.black_time, 0);
    cli.go(&words("ponder btime 5 depth -3"));
    assert_eq!(cli.tm.black_time, 5);
    assert_eq!(cli.game.max_depth, -3);
    cli.go(&words("wtime"));
    assert_eq!(cli.tm.white_time, 0);
}

#[test]
fn position_startpos_moves() {
    let mut cli = Cli::new();
    cli.position(&words("startpos moves e2e4 e7e5 g1f3"));
    assert_eq!(
        cli.game.board.fen,
        "rnbqkbnr/pppp1ppp/8/4p3/4P3/5N2/PPPP1PPP/RNBQKB1R b KQkq - 1 2"
    );
    assert_eq!(cli.game.move_number, 2);
    assert_eq!(cli.game.game_history.h.len(), 3);
}

#[test]
fn position_fen_sets_board_and_move_number() {
    let mut cli = Cli::new();
    let mut args = vec!["fen".to_string()];
    args.extend(words(FOOLS_MATE));
    cli.position(&args);
    assert_eq!(cli.game.board.fen, FOOLS_MATE);
    assert_eq!(cli.game.move_number, 3);
}

#[test]
fn position_bad_fen_keeps_board_but_sets_move_number() {
    let mut cli = Cli::new();
    let before = cli.game.board.fen.clone();
    cli.position(&words("fen xx w KQkq - 0 17 moves e2e4"));
    assert_eq!(cli.game.board.fen, before);
    assert_eq!(cli.game.move_number, 17);
}

#[test]
fn position_short_fen_changes_nothing() {
    let mut cli = Cli::new();
    cli.position(&words("fen 8/8/8 w - - 0"));
    assert_eq!(cli.game.move_number, 0);
}

#[test]
fn position_stops_at_a_bad_move() {
    let mut cli = Cli::new();
    let before = cli.game.board.fen.clone();
    cli.position(&words("moves e2e5 e2e4"));
    assert_eq!(cli.game.board.fen, before);
    cli.position(&words("moves e9e4"));
    assert_eq!(cli.game.board.fen, before);
    assert!(cli.game.game_history.h.is_empty());
}

#[test]
fn engine_move_is_played_and_reported() {
    let mut cli = Cli::new();
    cli.handle("go depth 1");
    let reply = cli.get_move_from_engine(&prefer("d2d4"), &|| true);
    assert_eq!(reply, "bestmove d2d4");
    assert_eq!(
        cli.game.board.fen,
        "rnbqkbnr/pppppppp/8/8/3P4/8/PPP1PPPP/RNBQKBNR b KQkq d3 0 1"
    );
    assert_eq!(cli.game.game_history.h.len(), 1);
}

#[test]
fn engine_move_in_checkmate_is_none() {
    let mut cli = Cli::new();
    let mut args = vec!["fen".to_string()];
    args.extend(words(FOOLS_MATE));
    cli.position(&args);
    assert_eq!(cli.get_move_from_engine(&prefer("d2d4"), &|| true), "bestmove (none)");
}

#[test]
fn go_for_black_uses_black_clock() {
    let mut cli = Cli::new();
    cli.position(&words("startpos moves e2e4"));
    cli.handle("go wtime 60000 btime 50000 winc 1000 binc 500 movestogo 20 depth 2");
    // black to move at move 1: fraction 20 + 20 * 1 / 40 = 20; 50000 / 20 + 500 / 2
    assert_eq!(cli.game.move_time, 2_750);
}

#[test]
fn position_startpos_sets_up_the_start_again() {
    let mut cli = Cli::new();
    cli.position(&words("startpos moves e2e4"));
    cli.position(&words("startpos moves e2e4 e7e5"));
    assert_eq!(
        cli.game.board.fen,
        "rnbqkbnr/pppp1ppp/8/4p3/4P3/8/PPPP1PPP/RNBQKBNR w KQkq e6 0 2"
    );
    assert_eq!(cli.game.move_number, 1);
}

#[test]
fn position_fen_then_moves() {
    let mut cli = Cli::new();
    cli.position(&words(
        "fen r1bqkb1r/pppp1ppp/2n2n2/4p2Q/2B1P3/8/PPPP1PPP/RNB1K1NR w KQkq - 4 4 moves h5f7",
    ));
    assert_eq!(cli.game.board.fen, "r1bqkb1r/pppp1Qpp/2n2n2/4p3/2B1P3/8/PPPP1PPP/RNB1K1NR b KQkq - 0 4");
    assert_eq!(cli.game.move_number, 5);
    assert_eq!(cli.get_move_from_engine(&prefer("e8e7"), &|| true), "bestmove (none)");
}

#[test]
fn position_moves_stop_partway() {
    let mut cli = Cli::new();
    cli.position(&words("startpos moves e2e4 e7e5 e2e4 g1f3"));
    assert_eq!(cli.game.board.fen, "rnbqkbnr/pppp1ppp/8/4p3/4P3/8/PPPP1PPP/RNBQKBNR w KQkq e6 0 2");
    assert_eq!(cli.game.move_number, 1);
    assert_eq!(cli.game.game_history.h.len(), 2);
}

#[test]
fn engine_move_keeps_the_move_number() {
    let mut cli = Cli::new();
    cli.handle("go depth 0");
    let reply = cli.get_move_from_engine(&prefer("e2e4"), &|| true);
    assert_eq!(reply, "bestmove e2e4");
    assert_eq!(cli.game.move_number, 0);
}

#[test]
fn answer_without_a_move() {
    let mut cli = Cli::new();
    assert_eq!(cli.answer(None), "bestmove (none)");
    assert_eq!(cli.answer(Some("g1f3".to_string())), "bestmove g1f3");
    assert_eq!(cli.game.board.fen, "rnbqkbnr/pppppppp/8/8/8/5N2/PPPPPPPP/RNBQKB1R b KQkq - 1 1");
}
