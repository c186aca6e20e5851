//! A chess game as the engine plays it.

use vstd::prelude::*;
use crate::types::{Depth, MoveTime, MoveNumber, MoveScore, INIT_MAX_DEPTH, DEFAULT_TIME, MIN_INT, MAX_INT};
use crate::search::{root_moves, root_seq, total_nodes, spec_apply_results, results_in_window, moves_below,
    Deepening, DeepeningStep, DeepeningState, deepen_next, initial_state};
use crate::chess::{Position, Side, opt_view, start_fen, fen_accepted, written_fen, fen_after_move, fen_side,
    legal_move_texts, normalize_fen, play_move_on_fen, fen_legal_moves, side_to_move};
use crate::history::{History, hash_entry};
use crate::text::views;

verus! {

/// A chess game: the position, the positions played so far, and the limits of
/// the next search.
pub struct Game {
    /// The deepest iteration of the next search.
    pub max_depth: Depth,
    pub board: Position,
    /// The time for the next move, in milliseconds.
    pub move_time: MoveTime,
    pub move_number: MoveNumber,
    /// The nodes searched in this game.
    pub node_count: u64,
    pub game_history: History,
}

/// What a game's play changes: the position (as FEN), the move number and
/// the history.
pub type GameState = (Seq<char>, MoveNumber, Seq<u64>);

/// The move number after a move that leads to the position `after`: one
/// more when Black is to move there, that is after a move of White (held at
/// the largest number).
pub open spec fn bump_number(n: MoveNumber, after: Seq<char>) -> MoveNumber {
    if fen_side(after) == Side::Black && n < u64::MAX { (n + 1) as MoveNumber } else { n }
}

/// Position, move number and history after the moves `ms`, given in UCI
/// notation, are played in order from the position `fen` with move number
/// `n` and history `h`: each legal move records the position it is played
/// from in the history; the first move that does not read or is illegal ends
/// the play, and it and the moves after it are left out.
pub open spec fn play_texts(fen: Seq<char>, n: MoveNumber, h: Seq<u64>, ms: Seq<Seq<char>>) -> GameState
    decreases ms.len(),
{
    if ms.len() == 0 {
        (fen, n, h)
    } else {
        match fen_after_move(fen, ms[0]) {
            Some(a) => play_texts(a, bump_number(n, a), h + hash_entry(fen), ms.drop_first()),
            None => (fen, n, h),
        }
    }
}

/// Every move of `ms` is legal when they are played in order from `fen`.
pub open spec fn all_legal(fen: Seq<char>, ms: Seq<Seq<char>>) -> bool
    decreases ms.len(),
{
    if ms.len() == 0 {
        true
    } else {
        match fen_after_move(fen, ms[0]) {
            Some(a) => all_legal(a, ms.drop_first()),
            None => false,
        }
    }
}

/// Law: playing two lists of moves one after the other is playing the
/// joined list: when all the moves of the first are legal, the second is
/// played from where the first left the game; otherwise the play stopped in
/// the first.
pub proof fn lemma_play_texts_append(fen: Seq<char>, n: MoveNumber, h: Seq<u64>,
    first: Seq<Seq<char>>, second: Seq<Seq<char>>)
    ensures
        play_texts(fen, n, h, first + second) == if all_legal(fen, first) {
            let mid = play_texts(fen, n, h, first);
            play_texts(mid.0, mid.1, mid.2, second)
        } else {
            play_texts(fen, n, h, first)
        },
        all_legal(fen, first + second) == (all_legal(fen, first)
            && all_legal(play_texts(fen, n, h, first).0, second)),
    decreases first.len(),
{
    if first.len() == 0 {
        assert(first + second == second);
    } else {
        assert((first + second)[0] == first[0]);
        assert((first + second).drop_first() == first.drop_first() + second);
        match fen_after_move(fen, first[0]) {
            Some(a) => {
                lemma_play_texts_append(a, bump_number(n, a), h + hash_entry(fen), first.drop_first(), second);
            },
            None => {},
        }
    }
}

/// Law: playing a list of moves is playing its first move as `play_move`
/// does (when it is legal: the position after it, the move number raised
/// after a move of White, the position it was played from in the history)
/// and then the rest; an illegal first move ends the play with nothing
/// changed.
pub proof fn lemma_play_texts_first(fen: Seq<char>, n: MoveNumber, h: Seq<u64>, m: Seq<char>,
    rest: Seq<Seq<char>>)
    ensures
        play_texts(fen, n, h, seq![m] + rest) == match fen_after_move(fen, m) {
            Some(a) => play_texts(a, bump_number(n, a), h + hash_entry(fen), rest),
            None => (fen, n, h),
        },
        all_legal(fen, seq![m] + rest) == match fen_after_move(fen, m) {
            Some(a) => all_legal(a, rest),
            None => false,
        },
{
    assert((seq![m] + rest)[0] == m);
    assert((seq![m] + rest).drop_first() == rest);
}

/// Law: playing moves never shortens the history (what was recorded stays,
/// in order) and never lowers the move number.
pub proof fn lemma_play_texts_grows(fen: Seq<char>, n: MoveNumber, h: Seq<u64>, ms: Seq<Seq<char>>)
    ensures
        h.len() <= play_texts(fen, n, h, ms).2.len(),
        play_texts(fen, n, h, ms).2.take(h.len() as int) == h,
        n <= play_texts(fen, n, h, ms).1,
    decreases ms.len(),
{
    if ms.len() > 0 {
        match fen_after_move(fen, ms[0]) {
            Some(a) => {
                let h2 = h + hash_entry(fen);
                lemma_play_texts_grows(a, bump_number(n, a), h2, ms.drop_first());
                let r = play_texts(a, bump_number(n, a), h2, ms.drop_first()).2;
                assert(r.take(h.len() as int) == r.take(h2.len() as int).take(h.len() as int));
                assert(h2.take(h.len() as int) == h);
            },
            None => {},
        }
    }
}

/// The position (as FEN), its legal moves and the game's history: what a
/// root search is about.
pub type SearchContext = (Seq<char>, Seq<Seq<char>>, Seq<u64>);

/// One iteration of a root search: the score and node count of each root
/// move, and whether time was left after it.
pub type Iteration = (Seq<(MoveScore, u64)>, bool);

/// A score held to the window of the root search.
pub open spec fn held_score(s: MoveScore) -> MoveScore {
    if s < MIN_INT { MIN_INT } else if s > MAX_INT { MAX_INT } else { s }
}

/// `sc` is the held score of some call of `search` on the position `fen`,
/// the move `text`, the depth `depth` and the history `hist`.
pub open spec fn scored<F: Fn(&str, &str, Depth, &Vec<u64>) -> (MoveScore, u64)>(
    search: F, fen: Seq<char>, text: Seq<char>, depth: Depth, hist: Seq<u64>, sc: MoveScore) -> bool
{
    exists|f: &str, m: &str, h: &Vec<u64>, r: (MoveScore, u64)|
        #![trigger search.ensures((f, m, depth, h), r)]
        f@ == fen && m@ == text && h@ == hist && search.ensures((f, m, depth, h), r) && sc == held_score(r.0)
}

/// The results of an iteration from the state `st` are those of `search`:
/// one for each root move, its score that of a search of that move at the
/// iteration's depth.
pub open spec fn scored_iteration<F: Fn(&str, &str, Depth, &Vec<u64>) -> (MoveScore, u64)>(
    search: F, ctx: SearchContext, st: DeepeningState, results: Seq<(MoveScore, u64)>) -> bool
{
    &&& results.len() == st.1.len()
    &&& forall|i: int| 0 <= i < results.len() ==>
        #[trigger] scored(search, ctx.0, ctx.1[st.1[i].mv as int], st.0 as Depth, ctx.2, results[i].0)
}

/// An iteration from the state `st` that `search` and `time_left` can give.
pub open spec fn iteration_ok<F: Fn(&str, &str, Depth, &Vec<u64>) -> (MoveScore, u64), T: Fn() -> bool>(
    search: F, time_left: T, ctx: SearchContext, st: DeepeningState, it: Iteration) -> bool
{
    scored_iteration(search, ctx, st, it.0) && time_left.ensures((), it.1)
}

/// The state of the search after the iterations `iters`, when each was one
/// `search` and `time_left` can give and none ended the search.
pub open spec fn run_to<F: Fn(&str, &str, Depth, &Vec<u64>) -> (MoveScore, u64), T: Fn() -> bool>(
    search: F, time_left: T, ctx: SearchContext, max_depth: int, start: DeepeningState, iters: Seq<Iteration>)
    -> Option<DeepeningState>
    decreases iters.len(),
{
    if iters.len() == 0 {
        Some(start)
    } else {
        match run_to(search, time_left, ctx, max_depth, start, iters.drop_last()) {
            Some(st) => {
                let step = deepen_next(st, iters.last().0, iters.last().1, max_depth);
                if iteration_ok(search, time_left, ctx, st, iters.last()) && step.0 is None {
                    Some(step.1)
                } else {
                    None
                }
            },
            None => None,
        }
    }
}

/// The move a search ends with after the iterations `iters` (`Some`, with
/// the move if any), when each was one `search` and `time_left` can give and
/// the last one ended it.
pub open spec fn run_outcome<F: Fn(&str, &str, Depth, &Vec<u64>) -> (MoveScore, u64), T: Fn() -> bool>(
    search: F, time_left: T, ctx: SearchContext, max_depth: int, start: DeepeningState, iters: Seq<Iteration>)
    -> Option<Option<usize>>
{
    if iters.len() == 0 {
        None
    } else {
        match run_to(search, time_left, ctx, max_depth, start, iters.drop_last()) {
            Some(st) => if iteration_ok(search, time_left, ctx, st, iters.last()) {
                deepen_next(st, iters.last().0, iters.last().1, max_depth).0
            } else {
                None
            },
            None => None,
        }
    }
}

/// What a root search of the position `fen`, with the history `hist` and
/// the deepest iteration `max_depth`, can find (`found`, as text), given its
/// scorer `search` and its clock `time_left`: a legal move or none; none
/// when there is no legal move or `max_depth` is below 0; the only legal
/// move, without a search, when there is one; else the move a run of the
/// iterative deepening search ends with (see `run_outcome`), each of its
/// iterations scored by `search` and stopped or not by `time_left`, a move
/// being found whenever `time_left` only answers that time is left.
pub open spec fn search_result<F: Fn(&str, &str, Depth, &Vec<u64>) -> (MoveScore, u64), T: Fn() -> bool>(
    search: F, time_left: T, fen: Seq<char>, hist: Seq<u64>, max_depth: int, found: Option<Seq<char>>) -> bool
{
    let legal = legal_move_texts(fen);
    let ctx = (fen, legal, hist);
    &&& found matches Some(t) ==> legal.contains(t)
    &&& legal.len() == 0 ==> found is None
    &&& legal.len() == 1 ==> found == Some(legal[0])
    &&& legal.len() >= 2 && max_depth < 0 ==> found is None
    &&& 2 <= legal.len() <= i32::MAX && max_depth >= 0 ==> exists|iters: Seq<Iteration>|
        #[trigger] run_outcome(search, time_left, ctx, max_depth, initial_state(root_seq(legal.len())), iters)
            matches Some(b)
        && found == match b {
            Some(i) => Some(legal[i as int]),
            None => None,
        }
    &&& (forall|r: bool| time_left.ensures((), r) ==> r) && 2 <= legal.len() <= i32::MAX && max_depth >= 0
        ==> found is Some
}

/// The move chosen by a search, given by its place in the list of legal
/// moves, as its text.
fn chosen_move(legal: &Vec<String>, best: Option<usize>) -> (chosen: Option<String>)
    requires
        best matches Some(b) ==> b < legal@.len(),
    ensures
        match best {
            Some(b) => chosen matches Some(t) && t@ == legal@[b as int]@,
            None => chosen is None,
        },
{
    match best {
        Some(b) => Some(legal[b].clone()),
        None => None,
    }
}

impl Game {
    /// Position, move number and history.
    pub open spec fn snap(&self) -> GameState {
        (self.board.fen@, self.move_number, self.game_history.h@)
    }

    /// Creates a game from a position in FEN (the start position when `fen` is
    /// empty), a depth and a move time, where a zero stands for the default.
    /// The position is held as `cozy_chess` writes it.  When `cozy_chess`
    /// does not accept `fen`, the game is the default game: the start
    /// position with the default depth and time.
    pub fn new(fen: String, max_depth: Depth, move_time: MoveTime) -> (g: Game)
        ensures
            g.move_number == 0,
            g.node_count == 0,
            g.game_history.h@.len() == 0,
            fen@.len() == 0 ==> g.board.fen@ == start_fen(),
            fen@.len() > 0 && fen_accepted(fen@) ==> g.board.fen@ == written_fen(fen@),
            fen@.len() == 0 || fen_accepted(fen@) ==> {
                &&& g.max_depth == (if max_depth == 0 { INIT_MAX_DEPTH } else { max_depth })
                &&& g.move_time == (if move_time == 0 { DEFAULT_TIME } else { move_time })
            },
            !(fen@.len() == 0 || fen_accepted(fen@)) ==> {
                &&& g.board.fen@ == start_fen()
                &&& g.max_depth == INIT_MAX_DEPTH
                &&& g.move_time == DEFAULT_TIME
            },
    {
        let parsed = if fen.as_str().is_empty() {
            Some(Position::startpos())
        } else {
            match normalize_fen(fen.as_str()) {
                Some(written) => Some(Position { fen: written }),
                None => None,
            }
        };
        match parsed {
            Some(board) => Game {
                max_depth: if max_depth == 0 { INIT_MAX_DEPTH } else { max_depth },
                board,
                move_time: if move_time == 0 { DEFAULT_TIME } else { move_time },
                move_number: 0,
                node_count: 0,
                game_history: History::new(),
            },
            None => Game::default(),
        }
    }

    /// Plays a move given in UCI notation when it is legal in the game's
    /// position: the position it is played from is recorded in the history,
    /// and the move number goes up when it was a move of White.  An illegal
    /// move, or one that does not read, changes nothing.  Returns whether the
    /// move was played.
    pub fn play_move(&mut self, text: &str) -> (played: bool)
        ensures
            played == fen_after_move(old(self).board.fen@, text@) is Some,
            played ==> {
                &&& fen_after_move(old(self).board.fen@, text@) == Some(final(self).board.fen@)
                &&& final(self).move_number == bump_number(old(self).move_number, final(self).board.fen@)
                &&& final(self).game_history.h@ == old(self).game_history.h@ + hash_entry(old(self).board.fen@)
            },
            !played ==> final(self).snap() == old(self).snap(),
            final(self).max_depth == old(self).max_depth,
            final(self).move_time == old(self).move_time,
            final(self).node_count == old(self).node_count,
    {
        match play_move_on_fen(self.board.fen.as_str(), text) {
            Some(after) => {
                self.game_history.inc(&self.board);
                let side = side_to_move(after.as_str());
                self.board = Position { fen: after };
                if side == Side::Black {
                    self.move_number = self.move_number.saturating_add(1);
                }
                true
            },
            None => false,
        }
    }

    /// Plays the moves of `moves` from place `start` on, in order, until one
    /// is illegal (see `play_move`); returns whether all were played.
    pub fn play_moves(&mut self, moves: &Vec<String>, start: usize) -> (all: bool)
        requires
            start <= moves@.len(),
        ensures
            final(self).snap() == play_texts(old(self).board.fen@, old(self).move_number,
                old(self).game_history.h@, views(moves@).skip(start as int)),
            all == all_legal(old(self).board.fen@, views(moves@).skip(start as int)),
            final(self).max_depth == old(self).max_depth,
            final(self).move_time == old(self).move_time,
            final(self).node_count == old(self).node_count,
    {
        let ghost ms = views(moves@);
        let ghost s0 = self.snap();
        let mut i = start;
        while i < moves.len()
            invariant
                i <= moves@.len(),
                start <= i,
                ms == views(moves@),
                s0 == (old(self).board.fen@, old(self).move_number, old(self).game_history.h@),
                play_texts(s0.0, s0.1, s0.2, ms.skip(start as int))
                    == play_texts(self.snap().0, self.snap().1, self.snap().2, ms.skip(i as int)),
                all_legal(s0.0, ms.skip(start as int)) == all_legal(self.board.fen@, ms.skip(i as int)),
                self.max_depth == old(self).max_depth,
                self.move_time == old(self).move_time,
                self.node_count == old(self).node_count,
            decreases moves@.len() - i,
        {
            let ghost rest = ms.skip(i as int);
            assert(rest[0] == moves@[i as int]@);
            assert(rest.drop_first() == ms.skip(i + 1));
            let ghost cur = self.snap();
            if !self.play_move(moves[i].as_str()) {
                assert(fen_after_move(cur.0, rest[0]) is None);
                assert(play_texts(cur.0, cur.1, cur.2, rest) == cur);
                assert(!all_legal(cur.0, rest));
                return false;
            }
            i = i + 1;
        }
        assert(ms.skip(i as int).len() == 0);
        true
    }
}

impl Game {
    /// Finds the move to play by iterative deepening over the legal moves of
    /// the game's position (see `Deepening`), and returns it in UCI notation.
    /// `search` scores one root move, given as the position's FEN and the
    /// move's text, at a depth, with the game's history (to tell repeated
    /// positions), and tells how many nodes that took;
    /// `time_left` tells whether the time for the move has not yet run out.
    /// A score outside the window of the root search is held to the window,
    /// and node counts that would overflow the game's counter are held to
    /// what still fits.  With no legal move there is none to play; with one,
    /// it is played without a search.  The position and the game's settings
    /// stay as they are; the game's node count grows by the nodes counted.
    pub fn find_move<F, T>(&mut self, search: &F, time_left: &T) -> (best: Option<String>)
        where
            F: Fn(&str, &str, Depth, &Vec<u64>) -> (MoveScore, u64),
            T: Fn() -> bool,
        requires
            forall|f: &str, m: &str, d: Depth, h: &Vec<u64>| #[trigger] search.requires((f, m, d, h)),
            time_left.requires(()),
        ensures
            search_result(*search, *time_left, old(self).board.fen@, old(self).game_history.h@,
                old(self).max_depth as int, opt_view(best)),
            final(self).board == old(self).board,
            final(self).max_depth == old(self).max_depth,
            final(self).move_time == old(self).move_time,
            final(self).move_number == old(self).move_number,
            final(self).game_history == old(self).game_history,
            final(self).node_count >= old(self).node_count,
    {
        let legal = fen_legal_moves(self.board.fen.as_str());
        let ghost texts = views(legal@);
        let root = root_moves(&legal);
        if root.len() > i32::MAX as usize {
            return None;
        }
        assert(moves_below(root@, legal@.len() as int));
        let ghost root_spec = root@;
        let ghost ctx: SearchContext = (self.board.fen@, texts, self.game_history.h@);
        let ghost start = initial_state(root@);
        let ghost always = forall|r: bool| time_left.ensures((), r) ==> r;
        let ghost mut iters: Seq<Iteration> = Seq::empty();
        let (mut state, first) = Deepening::start(root, legal.len(), self.max_depth, self.node_count);
        match first {
            DeepeningStep::Finished(best) => {
                proof {
                    if legal@.len() == 1 {
                        assert(root_spec[0].mv == 0);
                        assert(texts[0] == legal@[0]@);
                    }
                    if let Some(b) = best {
                        assert(root_spec.len() == 1 ==> root_spec[0].mv < legal@.len());
                        assert(texts[b as int] == legal@[b as int]@);
                    }
                }
                let chosen = chosen_move(&legal, best);
                return chosen;
            },
            DeepeningStep::Search(_) => {},
        }
        loop
            invariant
                state.well_formed(),
                state.root_count == legal@.len(),
                texts.len() >= 2,
                self.max_depth >= 0,
                texts == views(legal@),
                texts == legal_move_texts(old(self).board.fen@),
                ctx == (old(self).board.fen@, texts, old(self).game_history.h@),
                start == initial_state(root_seq(texts.len())),
                run_to(*search, *time_left, ctx, self.max_depth as int, start, iters) == Some(state.model()),
                always == forall|r: bool| time_left.ensures((), r) ==> r,
                always ==> (state.current_depth > 0 ==> state.best_move is Some),
                state.max_depth == self.max_depth,
                state.node_count >= old(self).node_count,
                self.board == old(self).board,
                self.max_depth == old(self).max_depth,
                self.move_time == old(self).move_time,
                self.move_number == old(self).move_number,
                self.game_history == old(self).game_history,
                self.node_count == old(self).node_count,
                forall|f: &str, m: &str, d: Depth, h: &Vec<u64>| #[trigger] search.requires((f, m, d, h)),
                time_left.requires(()),
            decreases state.max_depth - state.current_depth,
        {
            let depth = state.current_depth;
            let mut results: Vec<(MoveScore, u64)> = Vec::new();
            let mut room: u64 = u64::MAX - state.node_count;
            let mut i: usize = 0;
            while i < state.moves.len()
                invariant
                    i <= state.moves@.len(),
                    results@.len() == i,
                    results_in_window(results@),
                    moves_below(state.moves@, legal@.len() as int),
                    texts == views(legal@),
                    depth == state.current_depth,
                    ctx.0 == self.board.fen@,
                    ctx.1 == texts,
                    ctx.2 == self.game_history.h@,
                    forall|t: int| 0 <= t < i ==> #[trigger] scored(*search, ctx.0,
                        ctx.1[state.moves@[t].mv as int], state.current_depth, ctx.2, results@[t].0),
                    state.node_count + total_nodes(spec_apply_results(state.moves@.take(i as int), results@))
                        + room == u64::MAX,
                    forall|f: &str, m: &str, d: Depth, h: &Vec<u64>| #[trigger] search.requires((f, m, d, h)),
                decreases state.moves@.len() - i,
            {
                let fen_text = self.board.fen.as_str();
                let move_text = legal[state.moves[i].mv].as_str();
                let hist = &self.game_history.h;
                let (score, nodes) = search(fen_text, move_text, depth, hist);
                let held = if score < MIN_INT { MIN_INT } else if score > MAX_INT { MAX_INT } else { score };
                let counted = if nodes <= room { nodes } else { room };
                room = room - counted;
                let ghost before = results@;
                proof {
                    let j = state.moves@[i as int].mv as int;
                    assert(texts[j] == legal@[j]@);
                    assert(search.ensures((fen_text, move_text, depth, hist), (score, nodes)));
                    assert(scored(*search, ctx.0, ctx.1[j], depth, ctx.2, held));
                }
                results.push((held, counted));
                proof {
                    assert(results@[i as int].0 == held);
                    assert forall|t: int| 0 <= t < i + 1 implies #[trigger] scored(*search, ctx.0,
                        ctx.1[state.moves@[t].mv as int], state.current_depth, ctx.2, results@[t].0) by {
                        if t < i {
                            assert(results@[t] == before[t]);
                        }
                    }
                    let a = spec_apply_results(state.moves@.take(i + 1), results@);
                    let b = spec_apply_results(state.moves@.take(i as int), before);
                    assert(a.drop_last() == b);
                }
                i = i + 1;
            }
            proof {
                assert(state.moves@.take(state.moves@.len() as int) == state.moves@);
            }
            let playing = time_left();
            let ghost it: Iteration = (results@, playing);
            let ghost pre = state.model();
            proof {
                assert(iteration_ok(*search, *time_left, ctx, pre, it));
                assert(iters.push(it).drop_last() == iters);
            }
            let step = state.after_search(&results, playing);
            match step {
                DeepeningStep::Finished(best) => {
                    self.node_count = state.node_count;
                    let chosen = chosen_move(&legal, best);
                    proof {
                        if let Some(b) = best {
                            assert(texts[b as int] == legal@[b as int]@);
                        }
                        let all = iters.push(it);
                        assert(run_outcome(*search, *time_left, ctx, self.max_depth as int, start, all) == Some(best));
                    }
                    return chosen;
                },
                DeepeningStep::Search(_) => {
                    proof {
                        iters = iters.push(it);
                    }
                },
            }
        }
    }
}

impl Default for Game {
    /// The start position with the default depth and move time.
    fn default() -> (g: Game)
        ensures
            g.max_depth == INIT_MAX_DEPTH,
            g.move_time == DEFAULT_TIME,
            g.board.fen@ == start_fen(),
            g.move_number == 0,
            g.node_count == 0,
            g.game_history.h@.len() == 0,
    {
        Game {
            max_depth: INIT_MAX_DEPTH,
            board: Position::startpos(),
            move_time: DEFAULT_TIME,
            move_number: 0,
            node_count: 0,
            game_history: History::new(),
        }
    }
}

} // verus!
