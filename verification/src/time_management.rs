//! How much of the clock the engine spends on its next move.

use vstd::prelude::*;
use crate::types::{MoveTime, MoveNumber, MIN_MOVE_TIME, MOVE_LATE_GAME_START,
    MOVE_TIME_FRACTION_EARLY_GAME, MOVE_TIME_FRACTION_LATE_GAME};
use crate::chess::{Side, side_to_move, fen_side};
use crate::game::Game;

verus! {

/// The clocks of both sides and their increments, as a UCI `go` command gives
/// them, and the number of moves until the next time control.
pub struct TimeManagement {
    pub white_time: MoveTime,
    pub black_time: MoveTime,
    pub white_inc: MoveTime,
    pub black_inc: MoveTime,
    pub moves_to_go: MoveNumber,
}

/// One part in how many of the remaining time goes to a move: it grows in
/// a straight line from the early-game fraction at move 0 to the late-game
/// fraction at `MOVE_LATE_GAME_START` (rounding down), and stays there.
pub open spec fn spec_move_time_fraction(move_number: int) -> int {
    if move_number >= MOVE_LATE_GAME_START {
        MOVE_TIME_FRACTION_LATE_GAME as int
    } else {
        (MOVE_TIME_FRACTION_LATE_GAME - MOVE_TIME_FRACTION_EARLY_GAME) * move_number
            / (MOVE_LATE_GAME_START as int) + MOVE_TIME_FRACTION_EARLY_GAME
    }
}

/// `a - b`, or 0 where that would be negative.
pub open spec fn saturating_diff(a: int, b: int) -> int {
    if a >= b { a - b } else { 0 }
}

/// The time for a move, given the time left on the clock and the increment:
/// the fraction of the remaining time plus half the increment, but no more
/// than the clock less the safety margin, and never less than the least move
/// time.
pub open spec fn spec_allotted_time(time_avail: int, inc_avail: int, move_number: int) -> int {
    let planned = time_avail / spec_move_time_fraction(move_number) + inc_avail / 2;
    let limit = saturating_diff(time_avail, MIN_MOVE_TIME as int);
    let capped = if planned <= limit { planned } else { limit };
    if capped >= MIN_MOVE_TIME { capped } else { MIN_MOVE_TIME as int }
}

/// The fraction of the remaining time spent on a move with this number.
pub fn move_time_fraction(move_number: MoveNumber) -> (fraction: MoveTime)
    ensures
        fraction == spec_move_time_fraction(move_number as int),
{
    if move_number >= MOVE_LATE_GAME_START {
        MOVE_TIME_FRACTION_LATE_GAME
    } else {
        assert((MOVE_TIME_FRACTION_LATE_GAME - MOVE_TIME_FRACTION_EARLY_GAME) * move_number
            <= (MOVE_TIME_FRACTION_LATE_GAME - MOVE_TIME_FRACTION_EARLY_GAME) * MOVE_LATE_GAME_START)
            by (nonlinear_arith)
            requires move_number < MOVE_LATE_GAME_START;
        (MOVE_TIME_FRACTION_LATE_GAME - MOVE_TIME_FRACTION_EARLY_GAME) * move_number
            / MOVE_LATE_GAME_START + MOVE_TIME_FRACTION_EARLY_GAME
    }
}

/// The fraction of the remaining time spent on a move lies between the early
/// and the late fraction, and it does not fall as the game goes on.
pub proof fn lemma_move_time_fraction_bounds(m: int, n: int)
    requires
        0 <= m <= n,
    ensures
        MOVE_TIME_FRACTION_EARLY_GAME <= spec_move_time_fraction(m) <= MOVE_TIME_FRACTION_LATE_GAME,
        spec_move_time_fraction(m) <= spec_move_time_fraction(n),
{
    let d = (MOVE_TIME_FRACTION_LATE_GAME - MOVE_TIME_FRACTION_EARLY_GAME) as int;
    let l = MOVE_LATE_GAME_START as int;
    if m < l {
        assert(0 <= d * m / l <= d) by (nonlinear_arith)
            requires 0 <= m < l, d >= 0, l > 0;
        if n < l {
            assert(d * m / l <= d * n / l) by (nonlinear_arith)
                requires 0 <= m <= n, d >= 0, l > 0;
        }
    }
}

/// Law: a move gets one twentieth of the remaining time at the start of the
/// game, one fortieth from move 40 on, and in between a share that never
/// grows as the game goes on.
pub proof fn lemma_move_time_fraction_ends(n: int)
    requires
        n >= 0,
    ensures
        spec_move_time_fraction(0) == 20,
        n >= 40 ==> spec_move_time_fraction(n) == 40,
        n < 40 ==> 20 <= spec_move_time_fraction(n) < 40,
{
    lemma_move_time_fraction_bounds(n, n);
    if n < 40 {
        assert(20 * n / 40 < 20) by (nonlinear_arith)
            requires 0 <= n < 40;
    }
}

/// Law: the time given to a move is never below the least move time, and
/// never more than the clock less the safety margin unless that is below the
/// least move time; with the increment left aside, it is no more than the
/// fraction of the clock either (when that is at least the least move time).
pub proof fn lemma_allotted_time_bounds(time_avail: int, inc_avail: int, move_number: int)
    requires
        time_avail >= 0,
        inc_avail >= 0,
        move_number >= 0,
    ensures
        spec_allotted_time(time_avail, inc_avail, move_number) >= MIN_MOVE_TIME,
        time_avail >= 2 * MIN_MOVE_TIME ==>
            spec_allotted_time(time_avail, inc_avail, move_number) <= time_avail - MIN_MOVE_TIME,
        time_avail < 2 * MIN_MOVE_TIME ==>
            spec_allotted_time(time_avail, inc_avail, move_number) == MIN_MOVE_TIME,
        ({
            let planned = time_avail / spec_move_time_fraction(move_number) + inc_avail / 2;
            planned >= MIN_MOVE_TIME ==> spec_allotted_time(time_avail, inc_avail, move_number) <= planned
        }),
{
    lemma_move_time_fraction_bounds(move_number, move_number);
}

/// Law: more time on the clock, or a larger increment, never gives a move
/// less time.
pub proof fn lemma_allotted_time_monotone(t1: int, i1: int, t2: int, i2: int, move_number: int)
    requires
        0 <= t1 <= t2,
        0 <= i1 <= i2,
        move_number >= 0,
    ensures
        spec_allotted_time(t1, i1, move_number) <= spec_allotted_time(t2, i2, move_number),
{
    lemma_move_time_fraction_bounds(move_number, move_number);
    let f = spec_move_time_fraction(move_number);
    assert(t1 / f <= t2 / f) by (nonlinear_arith)
        requires 0 <= t1 <= t2, f > 0;
}

impl TimeManagement {
    /// The clock of a side.
    pub open spec fn spec_time_of(&self, side: Side) -> MoveTime {
        match side {
            Side::White => self.white_time,
            Side::Black => self.black_time,
        }
    }

    /// The increment of a side.
    pub open spec fn spec_inc_of(&self, side: Side) -> MoveTime {
        match side {
            Side::White => self.white_inc,
            Side::Black => self.black_inc,
        }
    }

    /// The time for the next move of `side`.
    pub open spec fn spec_allotted_for(&self, side: Side, move_number: MoveNumber) -> int {
        spec_allotted_time(
            self.spec_time_of(side) as int,
            self.spec_inc_of(side) as int,
            move_number as int,
        )
    }

    /// Law: the time for a move of `side` depends on that side's clock and
    /// increment alone: the other side's clock and the moves to go play no
    /// part.
    pub proof fn lemma_allotted_for_own_clock(&self, other: TimeManagement, side: Side, move_number: MoveNumber)
        requires
            self.spec_time_of(side) == other.spec_time_of(side),
            self.spec_inc_of(side) == other.spec_inc_of(side),
        ensures
            self.spec_allotted_for(side, move_number) == other.spec_allotted_for(side, move_number),
    {
    }

    /// The time for the next move of `side` in move `move_number`.
    pub fn allotted_time(&self, side: Side, move_number: MoveNumber) -> (move_time: MoveTime)
        ensures
            move_time == self.spec_allotted_for(side, move_number),
    {
        let time_avail: MoveTime;
        let inc_avail: MoveTime;
        match side {
            Side::White => {
                time_avail = self.white_time;
                inc_avail = self.white_inc;
            },
            Side::Black => {
                time_avail = self.black_time;
                inc_avail = self.black_inc;
            },
        }
        let fraction = move_time_fraction(move_number);
        proof {
            lemma_move_time_fraction_bounds(move_number as int, move_number as int);
        }
        assert(time_avail / fraction <= time_avail / 2) by (nonlinear_arith)
            requires fraction >= 2;
        let mut move_time: MoveTime = time_avail / fraction + inc_avail / 2;
        let limit = time_avail.saturating_sub(MIN_MOVE_TIME);
        if limit < move_time {
            move_time = limit;
        }
        if move_time < MIN_MOVE_TIME {
            move_time = MIN_MOVE_TIME;
        }
        move_time
    }

    /// Sets the time for the next move of the game: that of the side to move
    /// in the game's position, for the game's move number.  Nothing else
    /// changes.
    pub fn set_game_time(&mut self, g: &mut Game)
        ensures
            *final(self) == *old(self),
            final(g).move_time == old(self).spec_allotted_for(fen_side(old(g).board.fen@), old(g).move_number),
            final(g).board == old(g).board,
            final(g).max_depth == old(g).max_depth,
            final(g).move_number == old(g).move_number,
            final(g).node_count == old(g).node_count,
            final(g).game_history == old(g).game_history,
    {
        let side = side_to_move(g.board.fen.as_str());
        g.move_time = self.allotted_time(side, g.move_number);
    }
}

impl Default for TimeManagement {
    /// No time on either clock, no increments, no time control.
    fn default() -> (tm: TimeManagement)
        ensures
            tm.white_time == 0,
            tm.black_time == 0,
            tm.white_inc == 0,
            tm.black_inc == 0,
            tm.moves_to_go == 0,
    {
        TimeManagement { white_time: 0, black_time: 0, white_inc: 0, black_inc: 0, moves_to_go: 0 }
    }
}

} // verus!
