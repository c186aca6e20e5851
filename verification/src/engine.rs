//! The engine as a browser page drives it: set up a position, play moves,
//! list legal moves, ask for the best move, and read the state of the game.

use vstd::prelude::*;
use crate::types::{Depth, MoveTime, MoveScore, INIT_MAX_DEPTH, DEFAULT_TIME};
use crate::chess::{Position, Side, Status, opt_view, start_fen, fen_accepted, written_fen, fen_after_move, fen_side,
    legal_move_texts, moves_from, position_status, normalize_fen, fen_legal_moves,
    fen_square_moves, fen_status, side_to_move, is_square_text};
use crate::game::{Game, bump_number, play_texts, all_legal, search_result};
use crate::history::hash_entry;
use crate::text::{Separator, views, words, split_words, join_texts, join_with};
use crate::time_management::TimeManagement;

verus! {

/// A chess engine with one game and its clocks.
pub struct ChessEngine {
    pub game: Game,
    pub tm: TimeManagement,
}

/// The engine holds the default game (the start position) and empty clocks.
pub open spec fn is_fresh(e: ChessEngine) -> bool {
    &&& e.game.board.fen@ == start_fen()
    &&& e.game.max_depth == INIT_MAX_DEPTH
    &&& e.game.move_time == DEFAULT_TIME
    &&& e.game.move_number == 0
    &&& e.game.node_count == 0
    &&& e.game.game_history.h@.len() == 0
    &&& e.tm.white_time == 0
    &&& e.tm.black_time == 0
    &&& e.tm.white_inc == 0
    &&& e.tm.black_inc == 0
    &&& e.tm.moves_to_go == 0
}

/// The name of the state of the game in the position `fen`: `checkmate`,
/// `stalemate` (any draw), or `ongoing` (also when the text does not read
/// as a position).
pub open spec fn status_text(fen: Seq<char>) -> Seq<char> {
    match position_status(fen) {
        Some(Status::Won) => "checkmate"@,
        Some(Status::Drawn) => "stalemate"@,
        _ => "ongoing"@,
    }
}

/// The game has ended in the position `fen`: by checkmate or a draw.
pub open spec fn game_over(fen: Seq<char>) -> bool {
    position_status(fen) == Some(Status::Won) || position_status(fen) == Some(Status::Drawn)
}

/// The name of a side to move.
pub open spec fn side_text(side: Side) -> Seq<char> {
    match side {
        Side::White => "white"@,
        Side::Black => "black"@,
    }
}

/// Law: the game is over exactly when its state is not named `ongoing`.
pub proof fn lemma_game_over_iff_not_ongoing(fen: Seq<char>)
    ensures
        game_over(fen) <==> status_text(fen) != "ongoing"@,
{
    reveal_strlit("checkmate");
    reveal_strlit("stalemate");
    reveal_strlit("ongoing");
    assert("checkmate"@[0] != "ongoing"@[0]);
    assert("stalemate"@[0] != "ongoing"@[0]);
}

/// The name of a game state.
fn status_name(status: Option<Status>) -> (name: String)
    ensures
        name@ == match status {
            Some(Status::Won) => "checkmate"@,
            Some(Status::Drawn) => "stalemate"@,
            _ => "ongoing"@,
        },
{
    match status {
        Some(Status::Won) => String::from_str("checkmate"),
        Some(Status::Drawn) => String::from_str("stalemate"),
        _ => String::from_str("ongoing"),
    }
}

/// The name of a side.
fn side_name(side: Side) -> (name: String)
    ensures
        name@ == side_text(side),
{
    match side {
        Side::White => String::from_str("white"),
        Side::Black => String::from_str("black"),
    }
}

/// Texts joined by commas.
fn join_commas(texts: &Vec<String>) -> (listed: String)
    ensures
        listed@ == join_with(views(texts@), ","@),
{
    let listed = join_texts(texts, 0, texts.len(), ",");
    assert(views(texts@).subrange(0, texts@.len() as int) == views(texts@));
    listed
}

/// The text of a move found, or `(none)`.
pub open spec fn none_or(found: Option<Seq<char>>) -> Seq<char> {
    match found {
        Some(t) => t,
        None => "(none)"@,
    }
}

/// The answer of a search: the move's text, or `(none)`.
fn move_or_none(found: Option<String>) -> (text: String)
    ensures
        text@ == none_or(opt_view(found)),
{
    match found {
        Some(t) => t,
        None => String::from_str("(none)"),
    }
}

impl ChessEngine {
    /// An engine with the default game (the start position) and empty clocks.
    pub fn new() -> (engine: ChessEngine)
        ensures
            is_fresh(engine),
    {
        ChessEngine { game: Game::default(), tm: TimeManagement::default() }
    }

    /// Sets the position from a FEN.  Succeeds exactly when `cozy_chess`
    /// accepts the FEN, and the position is then held as `cozy_chess` writes
    /// it; otherwise nothing changes.  Only the position changes.
    pub fn set_position_fen(&mut self, fen: &str) -> (accepted: bool)
        ensures
            accepted == fen_accepted(fen@),
            accepted ==> final(self).game.board.fen@ == written_fen(fen@),
            !accepted ==> *final(self) == *old(self),
            final(self).tm == old(self).tm,
            final(self).game.max_depth == old(self).game.max_depth,
            final(self).game.move_time == old(self).game.move_time,
            final(self).game.move_number == old(self).game.move_number,
            final(self).game.node_count == old(self).game.node_count,
            final(self).game.game_history == old(self).game.game_history,
    {
        match normalize_fen(fen) {
            Some(written) => {
                self.game.board = Position { fen: written };
                true
            },
            None => false,
        }
    }

    /// Starts over from the start position with empty clocks.
    pub fn set_position_startpos(&mut self)
        ensures
            is_fresh(*final(self)),
    {
        self.game = Game::default();
        self.tm = TimeManagement::default();
    }

    /// Plays moves given in UCI notation, separated by commas or spaces, in
    /// order (see `Game::play_move`).  Stops with `false` at the first move
    /// that does not read or is illegal (the moves before it stay played);
    /// `true` when all were played.
    pub fn apply_moves(&mut self, moves_str: &str) -> (all_played: bool)
        ensures
            ({
                let ms = words(moves_str@, Separator::CommaOrSpace);
                &&& final(self).game.snap() == play_texts(old(self).game.board.fen@,
                    old(self).game.move_number, old(self).game.game_history.h@, ms)
                &&& all_played == all_legal(old(self).game.board.fen@, ms)
            }),
            final(self).tm == old(self).tm,
            final(self).game.max_depth == old(self).game.max_depth,
            final(self).game.move_time == old(self).game.move_time,
            final(self).game.node_count == old(self).game.node_count,
    {
        let moves = split_words(moves_str, Separator::CommaOrSpace);
        assert(views(moves@).skip(0) == views(moves@));
        self.game.play_moves(&moves, 0)
    }

    /// The position as FEN.
    pub fn get_position_fen(&self) -> (fen: String)
        ensures
            fen@ == self.game.board.fen@,
    {
        self.game.board.fen.clone()
    }

    /// All legal moves in UCI notation, in the order in which `cozy_chess`
    /// generates them, separated by commas.
    pub fn get_legal_moves(&self) -> (listed: String)
        ensures
            listed@ == join_with(legal_move_texts(self.game.board.fen@), ","@),
            listed@.len() == 0 <==> legal_move_texts(self.game.board.fen@).len() == 0,
    {
        let moves = fen_legal_moves(self.game.board.fen.as_str());
        let listed = join_commas(&moves);
        proof {
            let ws = views(moves@);
            if ws.len() > 0 {
                assert(ws.last() == moves@[ws.len() - 1]@);
                assert(ws.last().len() > 0);
                if ws.len() >= 2 {
                    assert(join_with(ws, ","@) == join_with(ws.drop_last(), ","@) + ","@ + ws.last());
                }
            }
        }
        listed
    }

    /// The legal moves from a square (such as `e2`) in UCI notation, in the
    /// order of `get_legal_moves`, separated by commas; empty when the text
    /// is not a square (or the position does not read).
    pub fn get_moves_for_square(&self, square_str: &str) -> (listed: String)
        ensures
            fen_accepted(self.game.board.fen@) && is_square_text(square_str@) ==> listed@
                == join_with(moves_from(legal_move_texts(self.game.board.fen@), square_str@), ","@),
            !fen_accepted(self.game.board.fen@) || !is_square_text(square_str@) ==> listed@.len() == 0,
    {
        let moves = fen_square_moves(self.game.board.fen.as_str(), square_str);
        join_commas(&moves)
    }

    /// Searches for the best move (see `Game::find_move`) to the given depth
    /// in the given time, and gives it in UCI notation, or `(none)` when none
    /// was found.  The move is not played.
    pub fn find_best_move<F, T>(&mut self, depth: Depth, time_ms: MoveTime, search: &F, time_left: &T) -> (best: String)
        where
            F: Fn(&str, &str, Depth, &Vec<u64>) -> (MoveScore, u64),
            T: Fn() -> bool,
        requires
            forall|f: &str, m: &str, d: Depth, h: &Vec<u64>| #[trigger] search.requires((f, m, d, h)),
            time_left.requires(()),
        ensures
            best@ == "(none)"@ || legal_move_texts(old(self).game.board.fen@).contains(best@),
            legal_move_texts(old(self).game.board.fen@).len() == 0 ==> best@ == "(none)"@,
            legal_move_texts(old(self).game.board.fen@).len() == 1
                ==> best@ == legal_move_texts(old(self).game.board.fen@)[0],
            exists|found: Option<Seq<char>>| #[trigger] search_result(*search, *time_left,
                old(self).game.board.fen@, old(self).game.game_history.h@, depth as int, found)
                && best@ == none_or(found),
            final(self).game.max_depth == depth,
            final(self).game.move_time == time_ms,
            final(self).game.board == old(self).game.board,
            final(self).game.move_number == old(self).game.move_number,
            final(self).game.game_history == old(self).game.game_history,
            final(self).tm == old(self).tm,
    {
        self.game.max_depth = depth;
        self.game.move_time = time_ms;
        let found = self.game.find_move(search, time_left);
        let ghost found_view = opt_view(found);
        let best = move_or_none(found);
        assert(best@ == none_or(found_view));
        best
    }

    /// Sets the clocks and increments of both sides and the depth, sets the
    /// move time from the clock of the side to move (see
    /// `TimeManagement::set_game_time`), then searches as `find_best_move`.
    pub fn find_best_move_with_time<F, T>(
        &mut self,
        depth: Depth,
        white_time_ms: MoveTime,
        black_time_ms: MoveTime,
        white_inc_ms: MoveTime,
        black_inc_ms: MoveTime,
        search: &F,
        time_left: &T,
    ) -> (best: String)
        where
            F: Fn(&str, &str, Depth, &Vec<u64>) -> (MoveScore, u64),
            T: Fn() -> bool,
        requires
            forall|f: &str, m: &str, d: Depth, h: &Vec<u64>| #[trigger] search.requires((f, m, d, h)),
            time_left.requires(()),
        ensures
            best@ == "(none)"@ || legal_move_texts(old(self).game.board.fen@).contains(best@),
            legal_move_texts(old(self).game.board.fen@).len() == 0 ==> best@ == "(none)"@,
            legal_move_texts(old(self).game.board.fen@).len() == 1
                ==> best@ == legal_move_texts(old(self).game.board.fen@)[0],
            exists|found: Option<Seq<char>>| #[trigger] search_result(*search, *time_left,
                old(self).game.board.fen@, old(self).game.game_history.h@, depth as int, found)
                && best@ == none_or(found),
            final(self).game.max_depth == depth,
            final(self).tm.white_time == white_time_ms,
            final(self).tm.black_time == black_time_ms,
            final(self).tm.white_inc == white_inc_ms,
            final(self).tm.black_inc == black_inc_ms,
            final(self).tm.moves_to_go == old(self).tm.moves_to_go,
            final(self).game.move_time == final(self).tm.spec_allotted_for(
                fen_side(old(self).game.board.fen@), old(self).game.move_number),
            final(self).game.board == old(self).game.board,
            final(self).game.move_number == old(self).game.move_number,
            final(self).game.game_history == old(self).game.game_history,
    {
        self.game.max_depth = depth;
        self.tm.white_time = white_time_ms;
        self.tm.black_time = black_time_ms;
        self.tm.white_inc = white_inc_ms;
        self.tm.black_inc = black_inc_ms;
        self.tm.set_game_time(&mut self.game);
        let found = self.game.find_move(search, time_left);
        let ghost found_view = opt_view(found);
        let best = move_or_none(found);
        assert(best@ == none_or(found_view));
        best
    }

    /// Plays a move given in UCI notation when it is legal (see
    /// `Game::play_move`): the position it is played from goes into the
    /// history and the move number goes up after a move of White.  A move
    /// that does not read, or is illegal, is refused with `false` and
    /// changes nothing.
    pub fn make_move(&mut self, move_uci: &str) -> (played: bool)
        ensures
            played == fen_after_move(old(self).game.board.fen@, move_uci@) is Some,
            played ==> {
                &&& fen_after_move(old(self).game.board.fen@, move_uci@) == Some(final(self).game.board.fen@)
                &&& final(self).game.move_number
                    == bump_number(old(self).game.move_number, final(self).game.board.fen@)
                &&& final(self).game.game_history.h@
                    == old(self).game.game_history.h@ + hash_entry(old(self).game.board.fen@)
            },
            !played ==> final(self).game.snap() == old(self).game.snap(),
            final(self).tm == old(self).tm,
            final(self).game.max_depth == old(self).game.max_depth,
            final(self).game.move_time == old(self).game.move_time,
            final(self).game.node_count == old(self).game.node_count,
    {
        self.game.play_move(move_uci)
    }

    /// Whether the game is over: checkmate or a draw.
    pub fn is_game_over(&self) -> (over: bool)
        ensures
            over == game_over(self.game.board.fen@),
            fen_accepted(self.game.board.fen@) && legal_move_texts(self.game.board.fen@).len() == 0 ==> over,
    {
        match fen_status(self.game.board.fen.as_str()) {
            Some(Status::Won) => true,
            Some(Status::Drawn) => true,
            _ => false,
        }
    }

    /// `checkmate`, `stalemate` (any draw) or `ongoing`.
    pub fn get_game_status(&self) -> (status: String)
        ensures
            status@ == status_text(self.game.board.fen@),
    {
        status_name(fen_status(self.game.board.fen.as_str()))
    }

    /// `white` or `black`: the side to move.
    pub fn get_side_to_move(&self) -> (side: String)
        ensures
            side@ == side_text(fen_side(self.game.board.fen@)),
    {
        side_name(side_to_move(self.game.board.fen.as_str()))
    }

    /// The move number.
    pub fn get_move_number(&self) -> (n: u64)
        ensures
            n == self.game.move_number,
    {
        self.game.move_number
    }

    /// Starts over from the start position with empty clocks.
    pub fn reset(&mut self)
        ensures
            is_fresh(*final(self)),
    {
        self.game = Game::default();
        self.tm = TimeManagement::default();
    }
}

/// A greeting: `Hello, ` and the name and `!`.
pub fn greet(name: &str) -> (greeting: String)
    ensures
        greeting@ == "Hello, "@ + name@ + "!"@,
{
    let mut greeting = String::from_str("Hello, ");
    greeting.append(name);
    greeting.append("!");
    greeting
}

} // verus!
