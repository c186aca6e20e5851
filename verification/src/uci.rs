//! The UCI interface: the engine's side of the Universal Chess Interface,
//! which chess GUIs speak (https://en.wikipedia.org/wiki/Universal_Chess_Interface).
//!
//! A line from the GUI is read into an action: lines to send back, a search
//! to run, or the end of the session.  Reading and writing the lines, and
//! running the timer, is left to the caller.

use vstd::prelude::*;
use crate::types::{Depth, MoveTime, MoveNumber, MoveScore};
use crate::chess::{Position, start_fen, fen_accepted, written_fen, fen_after_move, fen_side,
    legal_move_texts, normalize_fen, opt_view};
use crate::game::{Game, GameState, play_texts, search_result};
use crate::history::hash_entry;
use crate::text::{Separator, views, words, split_words, text_is, parse_u64, parse_i16, join_with, join_texts,
    spec_parse_u64, spec_parse_i16};
use crate::time_management::TimeManagement;

verus! {

/// A UCI session: the game and the clocks.
pub struct Cli {
    pub game: Game,
    pub tm: TimeManagement,
}

/// What the caller is to do after a line from the GUI.
pub enum UciAction {
    /// Send these lines to the GUI.
    Reply(Vec<String>),
    /// Start the timer for the game's move time and search for a move
    /// (`Cli::get_move_from_engine`).
    Search,
    /// End the session.
    Quit,
    /// Nothing.
    Idle,
}

/// The limits of the next search that a `go` command sets.
pub struct SearchLimits {
    pub white_time: MoveTime,
    pub black_time: MoveTime,
    pub white_inc: MoveTime,
    pub black_inc: MoveTime,
    pub moves_to_go: MoveNumber,
    pub max_depth: Depth,
    pub move_time: MoveTime,
    /// A `movetime` was given: the move time is not taken from the clock.
    pub fixed_time: bool,
}

/// The words of `go` that take no value and are passed over.
pub open spec fn is_ignored_go_key(key: Seq<char>) -> bool {
    key == "searchmoves"@ || key == "ponder"@ || key == "nodes"@ || key == "mate"@
}

/// The words of `go` that take an unsigned number.
pub open spec fn is_unsigned_go_key(key: Seq<char>) -> bool {
    key == "wtime"@ || key == "btime"@ || key == "winc"@ || key == "binc"@
        || key == "movestogo"@ || key == "movetime"@
}

/// The limits with the value of an unsigned `go` word set.  A `movetime`
/// fixes the move time, keeping a tenth of the given time in hand.
pub open spec fn set_unsigned_limit(l: SearchLimits, key: Seq<char>, v: u64) -> SearchLimits {
    if key == "wtime"@ {
        SearchLimits { white_time: v, ..l }
    } else if key == "btime"@ {
        SearchLimits { black_time: v, ..l }
    } else if key == "winc"@ {
        SearchLimits { white_inc: v, ..l }
    } else if key == "binc"@ {
        SearchLimits { black_inc: v, ..l }
    } else if key == "movestogo"@ {
        SearchLimits { moves_to_go: v, ..l }
    } else {
        SearchLimits { move_time: (v * 9 / 10) as u64, fixed_time: true, ..l }
    }
}

/// The limits after the words of a `go` command, read in order: a word that
/// takes a value sets it; reading stops at an unknown word, at a missing value
/// and at a value that does not read as a number.
pub open spec fn apply_go_args(l: SearchLimits, args: Seq<Seq<char>>) -> SearchLimits
    decreases args.len(),
{
    if args.len() == 0 {
        l
    } else if is_ignored_go_key(args[0]) {
        apply_go_args(l, args.drop_first())
    } else if is_unsigned_go_key(args[0]) {
        if args.len() < 2 {
            l
        } else {
            match spec_parse_u64(args[1]) {
                Some(v) => apply_go_args(set_unsigned_limit(l, args[0], v), args.subrange(2, args.len() as int)),
                None => l,
            }
        }
    } else if args[0] == "depth"@ {
        if args.len() < 2 {
            l
        } else {
            match spec_parse_i16(args[1]) {
                Some(d) => apply_go_args(SearchLimits { max_depth: d, ..l }, args.subrange(2, args.len() as int)),
                None => l,
            }
        }
    } else {
        l
    }
}

/// The FEN of a `position` command whose word at `k` is `fen`: the six words
/// after it, joined by spaces.
pub open spec fn fen_after(args: Seq<Seq<char>>, k: int) -> Seq<char> {
    join_with(args.subrange(k + 1, k + 7), " "@)
}

/// What `go` does to a session: the limits are set as the words say; the
/// move time is the one a `movetime` fixed, or else the one the clock and
/// increment of the side to move allot; the position, the move number, the
/// node count and the history stay.
pub open spec fn go_effect(before: Cli, after: Cli, args: Seq<Seq<char>>) -> bool {
    let l = apply_go_args(before.limits(), args);
    &&& after.tm.white_time == l.white_time
    &&& after.tm.black_time == l.black_time
    &&& after.tm.white_inc == l.white_inc
    &&& after.tm.black_inc == l.black_inc
    &&& after.tm.moves_to_go == l.moves_to_go
    &&& after.game.max_depth == l.max_depth
    &&& after.game.move_time == if l.fixed_time {
        l.move_time as int
    } else {
        after.tm.spec_allotted_for(fen_side(before.game.board.fen@), before.game.move_number)
    }
    &&& after.game.board == before.game.board
    &&& after.game.move_number == before.game.move_number
    &&& after.game.node_count == before.game.node_count
    &&& after.game.game_history == before.game.game_history
}

/// Law: after a `go` command without `movetime` the move time is never below
/// the least move time, whatever the clocks say (a clock of 0 included).
pub proof fn lemma_go_move_time_floor(before: Cli, after: Cli, args: Seq<Seq<char>>)
    requires
        go_effect(before, after, args),
        !apply_go_args(before.limits(), args).fixed_time,
    ensures
        after.game.move_time >= crate::types::MIN_MOVE_TIME,
{
    crate::time_management::lemma_allotted_time_bounds(
        after.tm.white_time as int, after.tm.white_inc as int, before.game.move_number as int);
    crate::time_management::lemma_allotted_time_bounds(
        after.tm.black_time as int, after.tm.black_inc as int, before.game.move_number as int);
}

/// What one command of a `position` line, the one at `k`, and those after
/// it do to a game's position, move number and history.  `startpos` sets up
/// the start position at move number 0.  `fen` takes the next six words as
/// a FEN; the sixth sets the move number when it reads as a number; the
/// position is set (as `cozy_chess` writes it) when the FEN is accepted, and
/// the line ends when it is not or when fewer than six words follow.
/// `moves` plays the moves that follow (see `play_texts`) and ends the line.
/// Any other word ends the line.
pub open spec fn position_effect(st: GameState, args: Seq<Seq<char>>, k: int) -> GameState
    decreases args.len() - k,
{
    if k < 0 || k >= args.len() {
        st
    } else if args[k] == "startpos"@ {
        position_effect((start_fen(), 0, st.2), args, k + 1)
    } else if args[k] == "fen"@ {
        if k + 7 > args.len() {
            st
        } else {
            let n = match spec_parse_u64(args[k + 6]) {
                Some(v) => v,
                None => st.1,
            };
            let f = fen_after(args, k);
            if fen_accepted(f) {
                position_effect((written_fen(f), n, st.2), args, k + 7)
            } else {
                (st.0, n, st.2)
            }
        }
    } else if args[k] == "moves"@ {
        play_texts(st.0, st.1, st.2, args.skip(k + 1))
    } else {
        st
    }
}

/// Law: `position startpos moves ...` sets up the start position and plays
/// the moves from it, whatever position the game was in; the move number
/// starts from 0 and the history goes on.
pub proof fn lemma_position_startpos_moves(st: GameState, ms: Seq<Seq<char>>)
    ensures
        position_effect(st, seq!["startpos"@, "moves"@] + ms, 0) == play_texts(start_fen(), 0, st.2, ms),
{
    reveal_strlit("startpos");
    reveal_strlit("moves");
    reveal_strlit("fen");
    let args = seq!["startpos"@, "moves"@] + ms;
    assert(args[0] == "startpos"@);
    assert(args[1] == "moves"@);
    assert(args.skip(2) == ms);
    assert("moves"@ != "startpos"@);
    assert("moves"@ != "fen"@);
    assert(position_effect((start_fen(), 0, st.2), args, 1) == play_texts(start_fen(), 0, st.2, ms));
}

/// What the engine's answer to a search does: with no move found it answers
/// `bestmove (none)` and nothing changes; with a move found it answers
/// `bestmove` and the move, and the move, when legal, is played: the
/// position it is played from goes into the history, and the move number
/// stays.
pub open spec fn answer_effect(before: GameState, found: Option<Seq<char>>, reply: Seq<char>, after: GameState) -> bool {
    match found {
        None => reply == "bestmove (none)"@ && after == before,
        Some(t) => {
            &&& reply == "bestmove "@ + t
            &&& after == match fen_after_move(before.0, t) {
                Some(a) => (a, before.1, before.2 + hash_entry(before.0)),
                None => before,
            }
        },
    }
}

proof fn lemma_go_keys_distinct(k: Seq<char>)
    ensures
        !is_ignored_go_key("depth"@),
        !is_unsigned_go_key("depth"@),
        is_unsigned_go_key(k) ==> !is_ignored_go_key(k) && k != "depth"@,
{
    reveal_strlit("depth");
    reveal_strlit("searchmoves");
    reveal_strlit("ponder");
    reveal_strlit("nodes");
    reveal_strlit("mate");
    reveal_strlit("wtime");
    reveal_strlit("btime");
    reveal_strlit("winc");
    reveal_strlit("binc");
    reveal_strlit("movestogo");
    reveal_strlit("movetime");
    assert("depth"@[0] != "nodes"@[0]);
    assert("depth"@[0] != "wtime"@[0]);
    assert("depth"@[0] != "btime"@[0]);
    assert("wtime"@[0] != "nodes"@[0]);
    assert("btime"@[0] != "nodes"@[0]);
    assert("winc"@[0] != "mate"@[0]);
    assert("binc"@[0] != "mate"@[0]);
    if k == "wtime"@ {
        assert("wtime"@.len() != "searchmoves"@.len() || "wtime"@[0] != "searchmoves"@[0]);
        assert("wtime"@.len() != "ponder"@.len() || "wtime"@[0] != "ponder"@[0]);
        assert("wtime"@.len() != "nodes"@.len() || "wtime"@[0] != "nodes"@[0]);
        assert("wtime"@.len() != "mate"@.len() || "wtime"@[0] != "mate"@[0]);
        assert("wtime"@.len() != "depth"@.len() || "wtime"@[0] != "depth"@[0]);
    } else if k == "btime"@ {
        assert("btime"@.len() != "searchmoves"@.len() || "btime"@[0] != "searchmoves"@[0]);
        assert("btime"@.len() != "ponder"@.len() || "btime"@[0] != "ponder"@[0]);
        assert("btime"@.len() != "nodes"@.len() || "btime"@[0] != "nodes"@[0]);
        assert("btime"@.len() != "mate"@.len() || "btime"@[0] != "mate"@[0]);
        assert("btime"@.len() != "depth"@.len() || "btime"@[0] != "depth"@[0]);
    } else if k == "winc"@ {
        assert("winc"@.len() != "searchmoves"@.len() || "winc"@[0] != "searchmoves"@[0]);
        assert("winc"@.len() != "ponder"@.len() || "winc"@[0] != "ponder"@[0]);
        assert("winc"@.len() != "nodes"@.len() || "winc"@[0] != "nodes"@[0]);
        assert("winc"@.len() != "mate"@.len() || "winc"@[0] != "mate"@[0]);
        assert("winc"@.len() != "depth"@.len() || "winc"@[0] != "depth"@[0]);
    } else if k == "binc"@ {
        assert("binc"@.len() != "searchmoves"@.len() || "binc"@[0] != "searchmoves"@[0]);
        assert("binc"@.len() != "ponder"@.len() || "binc"@[0] != "ponder"@[0]);
        assert("binc"@.len() != "nodes"@.len() || "binc"@[0] != "nodes"@[0]);
        assert("binc"@.len() != "mate"@.len() || "binc"@[0] != "mate"@[0]);
        assert("binc"@.len() != "depth"@.len() || "binc"@[0] != "depth"@[0]);
    } else if k == "movestogo"@ {
        assert("movestogo"@.len() != "searchmoves"@.len() || "movestogo"@[0] != "searchmoves"@[0]);
        assert("movestogo"@.len() != "ponder"@.len() || "movestogo"@[0] != "ponder"@[0]);
        assert("movestogo"@.len() != "nodes"@.len() || "movestogo"@[0] != "nodes"@[0]);
        assert("movestogo"@.len() != "mate"@.len() || "movestogo"@[0] != "mate"@[0]);
        assert("movestogo"@.len() != "depth"@.len() || "movestogo"@[0] != "depth"@[0]);
    } else if k == "movetime"@ {
        assert("movetime"@.len() != "searchmoves"@.len() || "movetime"@[0] != "searchmoves"@[0]);
        assert("movetime"@.len() != "ponder"@.len() || "movetime"@[0] != "ponder"@[0]);
        assert("movetime"@.len() != "nodes"@.len() || "movetime"@[0] != "nodes"@[0]);
        assert("movetime"@.len() != "mate"@.len() || "movetime"@[0] != "mate"@[0]);
        assert("movetime"@.len() != "depth"@.len() || "movetime"@[0] != "depth"@[0]);
    }
}

/// Law: in a `go` command the order of the words does not matter: a depth
/// followed by another limit sets the same limits as that limit followed by
/// the depth, and reading goes on after both to the words that follow.
pub proof fn lemma_go_words_commute(l: SearchLimits, d: Seq<char>, k: Seq<char>, v: Seq<char>,
    rest: Seq<Seq<char>>)
    requires
        spec_parse_i16(d) is Some,
        is_unsigned_go_key(k),
        spec_parse_u64(v) is Some,
    ensures
        apply_go_args(l, seq!["depth"@, d, k, v] + rest) == apply_go_args(l, seq![k, v, "depth"@, d] + rest),
        apply_go_args(l, seq!["depth"@, d, k, v] + rest) == apply_go_args(
            set_unsigned_limit(SearchLimits { max_depth: spec_parse_i16(d)->0, ..l }, k, spec_parse_u64(v)->0),
            rest),
{
    lemma_go_keys_distinct(k);
    let a = seq!["depth"@, d, k, v] + rest;
    let b = seq![k, v, "depth"@, d] + rest;
    let x = spec_parse_i16(d)->0;
    let y = spec_parse_u64(v)->0;
    assert(a[0] == "depth"@ && a[1] == d);
    assert(a.subrange(2, a.len() as int) == seq![k, v] + rest);
    let a2 = seq![k, v] + rest;
    assert(a2[0] == k && a2[1] == v);
    assert(a2.subrange(2, a2.len() as int) == rest);
    assert(b[0] == k && b[1] == v);
    assert(b.subrange(2, b.len() as int) == seq!["depth"@, d] + rest);
    let b2 = seq!["depth"@, d] + rest;
    assert(b2[0] == "depth"@ && b2[1] == d);
    assert(b2.subrange(2, b2.len() as int) == rest);
    let ld = SearchLimits { max_depth: x, ..l };
    let lk = set_unsigned_limit(l, k, y);
    let l1 = set_unsigned_limit(ld, k, y);
    let l2 = SearchLimits { max_depth: x, ..lk };
    assert(l1 == l2);
    assert(apply_go_args(l, a) == apply_go_args(ld, a2));
    assert(apply_go_args(ld, a2) == apply_go_args(l1, rest));
    assert(apply_go_args(l, b) == apply_go_args(lk, b2));
    assert(apply_go_args(lk, b2) == apply_go_args(l2, rest));
}

/// Law: two limits given in either order set the same limits, and reading
/// goes on after both; the words `searchmoves`, `ponder`, `nodes` and
/// `mate` are passed over without effect.
pub proof fn lemma_go_limits_commute(l: SearchLimits, k1: Seq<char>, v1: Seq<char>, k2: Seq<char>,
    v2: Seq<char>, rest: Seq<Seq<char>>)
    requires
        is_unsigned_go_key(k1),
        is_unsigned_go_key(k2),
        k1 != k2,
        spec_parse_u64(v1) is Some,
        spec_parse_u64(v2) is Some,
    ensures
        apply_go_args(l, seq![k1, v1, k2, v2] + rest) == apply_go_args(l, seq![k2, v2, k1, v1] + rest),
        forall|w: Seq<char>| is_ignored_go_key(w) ==> apply_go_args(l, seq![w] + rest) == apply_go_args(l, rest),
{
    lemma_go_keys_distinct(k1);
    lemma_go_keys_distinct(k2);
    let a = seq![k1, v1, k2, v2] + rest;
    let b = seq![k2, v2, k1, v1] + rest;
    let x = spec_parse_u64(v1)->0;
    let y = spec_parse_u64(v2)->0;
    assert(a[0] == k1 && a[1] == v1);
    let a2 = seq![k2, v2] + rest;
    assert(a.subrange(2, a.len() as int) == a2);
    assert(a2[0] == k2 && a2[1] == v2);
    assert(a2.subrange(2, a2.len() as int) == rest);
    assert(b[0] == k2 && b[1] == v2);
    let b2 = seq![k1, v1] + rest;
    assert(b.subrange(2, b.len() as int) == b2);
    assert(b2[0] == k1 && b2[1] == v1);
    assert(b2.subrange(2, b2.len() as int) == rest);
    let l1 = set_unsigned_limit(set_unsigned_limit(l, k1, x), k2, y);
    let l2 = set_unsigned_limit(set_unsigned_limit(l, k2, y), k1, x);
    assert(l1 == l2);
    assert(apply_go_args(l, a) == apply_go_args(set_unsigned_limit(l, k1, x), a2));
    assert(apply_go_args(set_unsigned_limit(l, k1, x), a2) == apply_go_args(l1, rest));
    assert(apply_go_args(l, b) == apply_go_args(set_unsigned_limit(l, k2, y), b2));
    assert(apply_go_args(set_unsigned_limit(l, k2, y), b2) == apply_go_args(l2, rest));
    assert forall|w: Seq<char>| is_ignored_go_key(w) implies apply_go_args(l, seq![w] + rest)
        == apply_go_args(l, rest) by {
        assert((seq![w] + rest)[0] == w);
        assert((seq![w] + rest).drop_first() == rest);
    }
}

/// `a * 9 / 10` without overflow.
pub fn nine_tenths(a: u64) -> (r: u64)
    ensures
        r == a * 9 / 10,
{
    let q = a / 10;
    let rem = a % 10;
    assert(a * 9 / 10 == q * 9 + rem * 9 / 10) by (nonlinear_arith)
        requires q == a / 10, rem == a % 10;
    assert(q * 9 <= a) by (nonlinear_arith)
        requires q == a / 10;
    q * 9 + rem * 9 / 10
}

impl Cli {
    /// A session with the default game and empty clocks.
    pub fn new() -> (cli: Cli)
        ensures
            cli.game.max_depth == crate::types::INIT_MAX_DEPTH,
            cli.game.move_time == crate::types::DEFAULT_TIME,
            cli.game.board.fen@ == start_fen(),
            cli.game.move_number == 0,
            cli.game.game_history.h@.len() == 0,
            cli.game.node_count == 0,
            cli.tm.white_time == 0,
            cli.tm.black_time == 0,
            cli.tm.white_inc == 0,
            cli.tm.black_inc == 0,
            cli.tm.moves_to_go == 0,
    {
        Cli { game: Game::default(), tm: TimeManagement::default() }
    }

    /// The limits of the next search, before a `go` command.
    pub open spec fn limits(&self) -> SearchLimits {
        self.limits_with(false)
    }

    /// The limits of the next search, with the move time fixed or not.
    pub open spec fn limits_with(&self, fixed: bool) -> SearchLimits {
        SearchLimits {
            white_time: self.tm.white_time,
            black_time: self.tm.black_time,
            white_inc: self.tm.white_inc,
            black_inc: self.tm.black_inc,
            moves_to_go: self.tm.moves_to_go,
            max_depth: self.game.max_depth,
            move_time: self.game.move_time,
            fixed_time: fixed,
        }
    }

    /// The UCI `go` command, before the search: sets the clocks, the
    /// increments, the moves to go, the depth and the move time as the words
    /// say; without a `movetime`, the move time is then set from the clock of
    /// the side to move.
    pub fn go(&mut self, args: &Vec<String>)
        ensures
            go_effect(*old(self), *final(self), views(args@)),
    {
        let ghost argv = views(args@);
        let ghost start = self.limits();
        let n = args.len();
        let mut k: usize = 0;
        let mut done = false;
        let mut fixed = false;
        assert(argv.skip(0) == argv);
        while !done && k < n
            invariant
                argv == views(args@),
                n == args@.len(),
                k <= n,
                apply_go_args(start, argv) == if done {
                    self.limits_with(fixed)
                } else {
                    apply_go_args(self.limits_with(fixed), argv.skip(k as int))
                },
                start == old(self).limits(),
                self.game.board == old(self).game.board,
                self.game.move_number == old(self).game.move_number,
                self.game.node_count == old(self).game.node_count,
                self.game.game_history == old(self).game.game_history,
            decreases n - k, if done { 0int } else { 1int },
        {
            let ghost rest = argv.skip(k as int);
            assert(rest[0] == args@[k as int]@);
            let key = args[k].as_str();
            if text_is(key, "searchmoves") || text_is(key, "ponder") || text_is(key, "nodes")
                || text_is(key, "mate") {
                assert(rest.drop_first() == argv.skip(k + 1));
                k = k + 1;
            } else if text_is(key, "wtime") || text_is(key, "btime") || text_is(key, "winc")
                || text_is(key, "binc") || text_is(key, "movestogo") || text_is(key, "movetime") {
                if k + 1 >= n {
                    done = true;
                } else {
                    assert(rest[1] == args@[k + 1]@);
                    match parse_u64(args[k + 1].as_str()) {
                        Some(v) => {
                            if text_is(key, "wtime") {
                                self.tm.white_time = v;
                            } else if text_is(key, "btime") {
                                self.tm.black_time = v;
                            } else if text_is(key, "winc") {
                                self.tm.white_inc = v;
                            } else if text_is(key, "binc") {
                                self.tm.black_inc = v;
                            } else if text_is(key, "movestogo") {
                                self.tm.moves_to_go = v;
                            } else {
                                self.game.move_time = nine_tenths(v);
                                fixed = true;
                            }
                            assert(rest.subrange(2, rest.len() as int) == argv.skip(k + 2));
                            k = k + 2;
                        },
                        None => {
                            done = true;
                        },
                    }
                }
            } else if text_is(key, "depth") {
                if k + 1 >= n {
                    done = true;
                } else {
                    assert(rest[1] == args@[k + 1]@);
                    match parse_i16(args[k + 1].as_str()) {
                        Some(d) => {
                            self.game.max_depth = d;
                            assert(rest.subrange(2, rest.len() as int) == argv.skip(k + 2));
                            k = k + 2;
                        },
                        None => {
                            done = true;
                        },
                    }
                }
            } else {
                done = true;
            }
        }
        proof {
            if !done {
                assert(argv.skip(k as int).len() == 0);
            }
        }
        if !fixed {
            self.tm.set_game_time(&mut self.game);
        }
    }

    /// One command of a UCI `position` line, the one at `k`, with what
    /// follows it (see `position_effect`).  Returns where the next command
    /// starts, or `None` when the line is done.
    fn position_command(&mut self, args: &Vec<String>, k: usize) -> (next: Option<usize>)
        requires
            k < args@.len(),
        ensures
            next matches Some(j) ==> k < j <= args@.len(),
            position_effect(old(self).game.snap(), views(args@), k as int) == match next {
                Some(j) => position_effect(final(self).game.snap(), views(args@), j as int),
                None => final(self).game.snap(),
            },
            final(self).tm == old(self).tm,
            final(self).game.max_depth == old(self).game.max_depth,
            final(self).game.move_time == old(self).game.move_time,
            final(self).game.node_count == old(self).game.node_count,
    {
        let ghost argv = views(args@);
        let n = args.len();
        proof {
            reveal_strlit("fen");
            reveal_strlit("moves");
            reveal_strlit("startpos");
        }
        assert(argv[k as int] == args@[k as int]@);
        let cmd = args[k].as_str();
        if text_is(cmd, "fen") {
            if n - k < 7 {
                return None;
            }
            let fen = join_texts(args, k + 1, k + 7, " ");
            assert(argv[k + 6] == args@[k + 6]@);
            match parse_u64(args[k + 6].as_str()) {
                Some(v) => {
                    self.game.move_number = v;
                },
                None => {},
            }
            match normalize_fen(fen.as_str()) {
                Some(written) => {
                    self.game.board = Position { fen: written };
                    Some(k + 7)
                },
                None => None,
            }
        } else if text_is(cmd, "startpos") {
            self.game.board = Position::startpos();
            self.game.move_number = 0;
            Some(k + 1)
        } else if text_is(cmd, "moves") {
            self.game.play_moves(args, k + 1);
            None
        } else {
            None
        }
    }

    /// The UCI `position` command: runs its commands in order (see
    /// `position_effect`).
    pub fn position(&mut self, args: &Vec<String>)
        ensures
            final(self).game.snap() == position_effect(old(self).game.snap(), views(args@), 0),
            final(self).tm == old(self).tm,
            final(self).game.max_depth == old(self).game.max_depth,
            final(self).game.move_time == old(self).game.move_time,
            final(self).game.node_count == old(self).game.node_count,
    {
        let ghost argv = views(args@);
        let n = args.len();
        if n == 0 {
            return;
        }
        let mut next = self.position_command(args, 0);
        while next.is_some()
            invariant
                n == args@.len(),
                argv == views(args@),
                next matches Some(j) ==> 0 < j <= n,
                position_effect(old(self).game.snap(), argv, 0) == match next {
                    Some(j) => position_effect(self.game.snap(), argv, j as int),
                    None => self.game.snap(),
                },
                self.tm == old(self).tm,
                self.game.max_depth == old(self).game.max_depth,
                self.game.move_time == old(self).game.move_time,
                self.game.node_count == old(self).game.node_count,
            decreases match next { Some(j) => n - j + 1, None => 0 },
        {
            let j = next.unwrap();
            if j >= n {
                next = None;
            } else {
                next = self.position_command(args, j);
            }
        }
    }

    /// Reads one line from the GUI and carries out its command: `uci` is
    /// answered with the engine's name, author and options and `uciok`,
    /// `isready` with `readyok`; `position` and `go` change the session (a
    /// `go` then asks for a search); `quit` ends the session; an empty line or
    /// any other command does nothing.
    pub fn handle(&mut self, line: &str) -> (action: UciAction)
        ensures
            ({
                let w = words(line@, Separator::Whitespace);
                &&& w.len() == 0 ==> action is Idle && *final(self) == *old(self)
                &&& w.len() > 0 && w[0] == "uci"@ ==> *final(self) == *old(self) && (action matches UciAction::Reply(lines)
                    && views(lines@) == seq!["id name C4-E5 Chess"@, "id author Eugen Lindorfer"@, "option"@, "uciok"@])
                &&& w.len() > 0 && w[0] == "isready"@ ==> *final(self) == *old(self) && (action matches UciAction::Reply(lines)
                    && views(lines@) == seq!["readyok"@])
                &&& w.len() > 0 && w[0] == "go"@ ==> action is Search && go_effect(*old(self), *final(self), w.drop_first())
                &&& w.len() > 0 && w[0] == "position"@ ==> action is Idle && final(self).tm == old(self).tm
                    && final(self).game.snap() == position_effect(old(self).game.snap(), w.drop_first(), 0)
                &&& w.len() > 0 && w[0] == "quit"@ ==> action is Quit && *final(self) == *old(self)
                &&& w.len() > 0 && w[0] != "uci"@ && w[0] != "isready"@ && w[0] != "go"@ && w[0] != "position"@
                    && w[0] != "quit"@ ==> action is Idle && *final(self) == *old(self)
            }),
    {
        proof {
            reveal_strlit("uci");
            reveal_strlit("isready");
            reveal_strlit("go");
            reveal_strlit("position");
            reveal_strlit("quit");
        }
        let mut args = split_words(line, Separator::Whitespace);
        if args.len() == 0 {
            return UciAction::Idle;
        }
        let ghost all = args@;
        let first = args.remove(0);
        assert(views(args@) == views(all).drop_first());
        assert(views(all)[0] == first@);
        let cmd = first.as_str();
        if text_is(cmd, "uci") {
            let mut lines: Vec<String> = Vec::new();
            lines.push(String::from_str("id name C4-E5 Chess"));
            lines.push(String::from_str("id author Eugen Lindorfer"));
            lines.push(String::from_str("option"));
            lines.push(String::from_str("uciok"));
            assert(views(lines@) == seq!["id name C4-E5 Chess"@, "id author Eugen Lindorfer"@, "option"@, "uciok"@]);
            UciAction::Reply(lines)
        } else if text_is(cmd, "isready") {
            let mut lines: Vec<String> = Vec::new();
            lines.push(String::from_str("readyok"));
            assert(views(lines@) == seq!["readyok"@]);
            UciAction::Reply(lines)
        } else if text_is(cmd, "position") {
            self.position(&args);
            UciAction::Idle
        } else if text_is(cmd, "go") {
            self.go(&args);
            UciAction::Search
        } else if text_is(cmd, "quit") {
            UciAction::Quit
        } else {
            UciAction::Idle
        }
    }

    /// Answers a search that found `found`: `bestmove` and the move, which is
    /// then played (the position it is played from goes into the history, the
    /// move number stays), or `bestmove (none)` when no move was found.
    pub fn answer(&mut self, found: Option<String>) -> (reply: String)
        ensures
            answer_effect(old(self).game.snap(), opt_view(found), reply@, final(self).game.snap()),
            final(self).tm == old(self).tm,
            final(self).game.max_depth == old(self).game.max_depth,
            final(self).game.move_time == old(self).game.move_time,
            final(self).game.node_count == old(self).game.node_count,
    {
        match found {
            Some(text) => {
                let number = self.game.move_number;
                self.game.play_move(text.as_str());
                self.game.move_number = number;
                let mut reply = String::from_str("bestmove ");
                reply.append(text.as_str());
                reply
            },
            None => String::from_str("bestmove (none)"),
        }
    }

    /// Searches the game's position for a move (see `Game::find_move`) and
    /// answers with it (see `answer`): `bestmove (none)` when there is no
    /// legal move (checkmate or stalemate), the only legal move when there is
    /// one, and else the move the iterative deepening search ends with (see
    /// `search_result`).
    pub fn get_move_from_engine<F, T>(&mut self, search: &F, time_left: &T) -> (reply: String)
        where
            F: Fn(&str, &str, Depth, &Vec<u64>) -> (MoveScore, u64),
            T: Fn() -> bool,
        requires
            forall|f: &str, m: &str, d: Depth, h: &Vec<u64>| #[trigger] search.requires((f, m, d, h)),
            time_left.requires(()),
        ensures
            exists|found: Option<Seq<char>>| {
                &&& #[trigger] answer_effect(old(self).game.snap(), found, reply@, final(self).game.snap())
                &&& search_result(*search, *time_left, old(self).game.board.fen@, old(self).game.game_history.h@,
                    old(self).game.max_depth as int, found)
            },
            final(self).tm == old(self).tm,
            final(self).game.max_depth == old(self).game.max_depth,
            final(self).game.move_time == old(self).game.move_time,
            final(self).game.node_count >= old(self).game.node_count,
    {
        let found = self.game.find_move(search, time_left);
        let ghost found_view = opt_view(found);
        let ghost mid = self.game.snap();
        let reply = self.answer(found);
        proof {
            assert(mid == old(self).game.snap());
            assert(answer_effect(old(self).game.snap(), found_view, reply@, self.game.snap()));
        }
        reply
    }
}

impl Default for Cli {
    /// The same as `Cli::new`.
    fn default() -> (cli: Cli)
        ensures
            cli.game.max_depth == crate::types::INIT_MAX_DEPTH,
            cli.game.move_time == crate::types::DEFAULT_TIME,
            cli.game.board.fen@ == start_fen(),
            cli.game.move_number == 0,
            cli.game.game_history.h@.len() == 0,
            cli.game.node_count == 0,
            cli.tm.white_time == 0,
            cli.tm.black_time == 0,
            cli.tm.white_inc == 0,
            cli.tm.black_inc == 0,
            cli.tm.moves_to_go == 0,
    {
        Cli::new()
    }
}

} // verus!
