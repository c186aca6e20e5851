//! The iterative deepening controller of the engine's root search.
//!
//! The engine searches the root moves ever deeper: after each iteration it
//! evens out the scores of odd iterations against the iteration before, ranks
//! the moves by score, takes the best one, stops on a found mate or when the
//! time is up, and prunes the weakest root moves from a certain depth on.  The
//! search below each root move is done outside this controller: each
//! iteration the controller asks for the scores of its root moves at a depth
//! and is handed them back.

use vstd::prelude::*;
use crate::types::{Depth, MoveScore, MIN_INT, MAX_INT, MATE_LEVEL,
    FORWARD_PRUNING_DEPTH_START, FORWARD_PRUNING_MINIMUM, FORWARD_PRUNING_RATIO};

verus! {

broadcast use vstd::seq_lib::group_to_multiset_ensures;

/// A root move with its score and the nodes its search took.  The move is
/// given by its place in the list of legal moves of the position searched.
#[derive(Clone, Copy)]
pub struct AnnotatedMove {
    pub mv: usize,
    pub sc: MoveScore,
    pub node_count: u64,
}

// ---------------------------------------------------------------------------
// Ranking the root moves
// ---------------------------------------------------------------------------

/// Scores never rise along the sequence.
pub open spec fn ranked_by_score(s: Seq<AnnotatedMove>) -> bool {
    forall|i: int, j: int| 0 <= i < j < s.len() ==> #[trigger] s[i].sc >= #[trigger] s[j].sc
}

/// The first index whose score is below `score` (the length if there is none).
pub open spec fn first_below(s: Seq<AnnotatedMove>, score: int) -> int
    decreases s.len(),
{
    if s.len() == 0 {
        0
    } else if (s[0].sc as int) < score {
        0
    } else {
        1 + first_below(s.drop_first(), score)
    }
}

/// `x` put into `s` just before the first move that scores less than it,
/// that is, after every move that scores as much or more.
pub open spec fn insert_by_score(s: Seq<AnnotatedMove>, x: AnnotatedMove) -> Seq<AnnotatedMove> {
    s.insert(first_below(s, x.sc as int), x)
}

/// The moves ranked by falling score, moves of equal score in the order in
/// which they came (a stable sort).
pub open spec fn sort_by_score(s: Seq<AnnotatedMove>) -> Seq<AnnotatedMove>
    decreases s.len(),
{
    if s.len() == 0 {
        s
    } else {
        insert_by_score(sort_by_score(s.drop_last()), s.last())
    }
}

proof fn lemma_first_below(s: Seq<AnnotatedMove>, score: int)
    ensures
        0 <= first_below(s, score) <= s.len(),
        forall|t: int| 0 <= t < first_below(s, score) ==> s[t].sc >= score,
        first_below(s, score) < s.len() ==> s[first_below(s, score)].sc < score,
    decreases s.len(),
{
    if s.len() > 0 && (s[0].sc as int) >= score {
        lemma_first_below(s.drop_first(), score);
        assert forall|t: int| 0 <= t < first_below(s, score) implies s[t].sc >= score by {
            if t > 0 {
                assert(s[t] == s.drop_first()[t - 1]);
            }
        }
    }
}

proof fn lemma_first_below_unique(s: Seq<AnnotatedMove>, score: int, j: int)
    requires
        0 <= j <= s.len(),
        forall|t: int| 0 <= t < j ==> s[t].sc >= score,
        j < s.len() ==> s[j].sc < score,
    ensures
        first_below(s, score) == j,
    decreases s.len(),
{
    if s.len() > 0 && j > 0 {
        assert forall|t: int| 0 <= t < j - 1 implies s.drop_first()[t].sc >= score by {
            assert(s.drop_first()[t] == s[t + 1]);
        }
        lemma_first_below_unique(s.drop_first(), score, j - 1);
    }
}

/// Inserting by score keeps a ranked sequence ranked.
proof fn lemma_insert_by_score_ranked(s: Seq<AnnotatedMove>, x: AnnotatedMove)
    requires
        ranked_by_score(s),
    ensures
        ranked_by_score(insert_by_score(s, x)),
        insert_by_score(s, x).len() == s.len() + 1,
        insert_by_score(s, x).to_multiset() == s.to_multiset().insert(x),
{
    let p = first_below(s, x.sc as int);
    lemma_first_below(s, x.sc as int);
    s.insert_ensures(p, x);
    let r = s.insert(p, x);
    assert forall|i: int, j: int| 0 <= i < j < r.len() implies #[trigger] r[i].sc >= #[trigger] r[j].sc by {
        if j < p {
        } else if j == p {
        } else if i < p {
            assert(r[j] == s[j - 1]);
        } else if i == p {
            assert(r[j] == s[j - 1]);
        } else {
            assert(r[i] == s[i - 1]);
            assert(r[j] == s[j - 1]);
        }
    }
}

/// Law: ranking the root moves puts them in order of falling score, keeps
/// their number, and is a permutation of them (no move is lost, none is
/// added).
pub proof fn lemma_sort_by_score(s: Seq<AnnotatedMove>)
    ensures
        ranked_by_score(sort_by_score(s)),
        sort_by_score(s).len() == s.len(),
        sort_by_score(s).to_multiset() == s.to_multiset(),
    decreases s.len(),
{
    if s.len() > 0 {
        lemma_sort_by_score(s.drop_last());
        lemma_insert_by_score_ranked(sort_by_score(s.drop_last()), s.last());
        assert(s.drop_last().push(s.last()) == s);
    }
}

/// Law: the first of the ranked moves is one of the moves, and no move scores
/// more than it: the move the controller takes as best after an iteration is
/// a top-scored root move.
pub proof fn lemma_best_move_is_top(s: Seq<AnnotatedMove>)
    requires
        s.len() > 0,
    ensures
        s.contains(sort_by_score(s)[0]),
        forall|i: int| 0 <= i < s.len() ==> #[trigger] s[i].sc <= sort_by_score(s)[0].sc,
{
    lemma_sort_by_score(s);
    let r = sort_by_score(s);
    assert(r.to_multiset().count(r[0]) > 0);
    assert forall|i: int| 0 <= i < s.len() implies #[trigger] s[i].sc <= r[0].sc by {
        assert(s.to_multiset().count(s[i]) > 0);
        assert(r.contains(s[i]));
        let j = choose|j: int| 0 <= j < r.len() && r[j] == s[i];
        if j > 0 {
            assert(r[0].sc >= r[j].sc);
        }
    }
}

/// The moves of one score, in order.
pub open spec fn with_score(s: Seq<AnnotatedMove>, k: int) -> Seq<AnnotatedMove> {
    s.filter(|m: AnnotatedMove| m.sc == k)
}

proof fn lemma_filter_none(s: Seq<AnnotatedMove>, k: int)
    requires
        forall|i: int| 0 <= i < s.len() ==> #[trigger] s[i].sc != k,
    ensures
        with_score(s, k).len() == 0,
    decreases s.len(),
{
    reveal(Seq::filter);
    if s.len() > 0 {
        assert forall|i: int| 0 <= i < s.drop_last().len() implies #[trigger] s.drop_last()[i].sc != k by {
            assert(s.drop_last()[i] == s[i]);
        }
        lemma_filter_none(s.drop_last(), k);
    }
}

proof fn lemma_insert_by_score_with_score(r: Seq<AnnotatedMove>, x: AnnotatedMove, k: int)
    requires
        ranked_by_score(r),
    ensures
        with_score(insert_by_score(r, x), k) == if x.sc == k {
            with_score(r, k).push(x)
        } else {
            with_score(r, k)
        },
{
    let p = first_below(r, x.sc as int);
    lemma_first_below(r, x.sc as int);
    let pred = |m: AnnotatedMove| m.sc == k;
    let a = r.subrange(0, p);
    let b = r.subrange(p, r.len() as int);
    assert(r == a + b);
    assert(insert_by_score(r, x) == a.push(x) + b);
    Seq::filter_distributes_over_add(a.push(x), b, pred);
    Seq::filter_distributes_over_add(a, b, pred);
    a.lemma_filter_push(x, pred);
    if x.sc == k {
        assert forall|i: int| 0 <= i < b.len() implies #[trigger] b[i].sc != k by {
            assert(b[i] == r[p + i]);
            assert(r[p].sc < x.sc);
            if i > 0 {
                assert(r[p].sc >= r[p + i].sc);
            }
        }
        lemma_filter_none(b, k);
        assert(b.filter(pred) == Seq::<AnnotatedMove>::empty());
        assert(a.filter(pred) + b.filter(pred) == a.filter(pred));
        assert(a.filter(pred).push(x) + b.filter(pred) == a.filter(pred).push(x));
    }
}

/// Law: ranking is stable.  The moves of any one score come out in the
/// order in which they went in; in particular, of the moves that share the
/// best score, the one the move generator gave first is taken.
pub proof fn lemma_sort_by_score_stable(s: Seq<AnnotatedMove>, k: int)
    ensures
        with_score(sort_by_score(s), k) == with_score(s, k),
    decreases s.len(),
{
    if s.len() > 0 {
        let pred = |m: AnnotatedMove| m.sc == k;
        let prefix = s.drop_last();
        lemma_sort_by_score_stable(prefix, k);
        lemma_sort_by_score(prefix);
        lemma_insert_by_score_with_score(sort_by_score(prefix), s.last(), k);
        assert(prefix.push(s.last()) == s);
        prefix.lemma_filter_push(s.last(), pred);
    }
}

/// Ranks the moves by falling score, keeping moves of equal score in the
/// order in which they came.
pub fn sort_by_score_desc(v: &mut Vec<AnnotatedMove>)
    ensures
        final(v)@ == sort_by_score(old(v)@),
{
    let ghost orig = v@;
    let n = v.len();
    let mut i: usize = 0;
    assert(orig.take(0) == Seq::<AnnotatedMove>::empty());
    while i < n
        invariant
            v@.len() == n,
            orig.len() == n,
            i <= n,
            v@.take(i as int) == sort_by_score(orig.take(i as int)),
            v@.skip(i as int) == orig.skip(i as int),
        decreases n - i,
    {
        let x = v[i];
        assert(x == orig[i as int]) by {
            assert(v@.skip(i as int)[0] == orig.skip(i as int)[0]);
        }
        let ghost prefix = v@.take(i as int);
        let mut j: usize = 0;
        while j < i && v[j].sc >= x.sc
            invariant
                j <= i,
                i < n,
                v@.len() == n,
                prefix == v@.take(i as int),
                forall|t: int| 0 <= t < j ==> prefix[t].sc >= x.sc,
            decreases i - j,
        {
            j = j + 1;
        }
        proof {
            lemma_first_below_unique(prefix, x.sc as int, j as int);
            assert(orig.take(i + 1).drop_last() == orig.take(i as int));
            assert(orig.take(i + 1).last() == x);
        }
        let ghost before = v@;
        v.remove(i);
        v.insert(j, x);
        proof {
            assert(v@.take(i + 1) == prefix.insert(j as int, x));
            assert(v@.skip(i + 1) == before.skip(i + 1));
            assert(before.skip(i + 1) == orig.skip(i + 1)) by {
                assert(before.skip(i as int).skip(1) == before.skip(i + 1));
                assert(orig.skip(i as int).skip(1) == orig.skip(i + 1));
            }
        }
        i = i + 1;
    }
    assert(v@ == v@.take(n as int));
    assert(orig == orig.take(n as int));
}

// ---------------------------------------------------------------------------
// Evening out the scores of an iteration
// ---------------------------------------------------------------------------

/// Every score lies in the window of the search.
pub open spec fn in_window(s: Seq<AnnotatedMove>) -> bool {
    forall|i: int| 0 <= i < s.len() ==> MIN_INT <= #[trigger] s[i].sc <= MAX_INT
}

/// The sum of `old[i].sc - new[i].sc` over the first `k` positions.
pub open spec fn score_drop_sum(old: Seq<AnnotatedMove>, new: Seq<AnnotatedMove>, k: int) -> int
    decreases k,
{
    if k <= 0 {
        0
    } else {
        score_drop_sum(old, new, k - 1) + (old[k - 1].sc - new[k - 1].sc)
    }
}

/// Integer division rounding toward zero, as Rust divides.
pub open spec fn div_toward_zero(a: int, b: int) -> int {
    if a >= 0 { a / b } else { -((-a) / b) }
}

pub open spec fn min_of(a: int, b: int) -> int {
    if a <= b { a } else { b }
}

/// The mean fall of the scores from the earlier to the new iteration: the
/// falls over the positions both have, summed, divided (toward zero) by the
/// number of new moves.
pub open spec fn mean_score_drop(old: Seq<AnnotatedMove>, new: Seq<AnnotatedMove>) -> int {
    div_toward_zero(score_drop_sum(old, new, min_of(old.len() as int, new.len() as int)), new.len() as int)
}

/// The new moves with their scores evened out: each new score moved by the
/// mean fall, but never above the score of the same position in the earlier
/// iteration; there are as many moves as both iterations have.
pub open spec fn spec_stabilise(old: Seq<AnnotatedMove>, new: Seq<AnnotatedMove>) -> Seq<AnnotatedMove> {
    Seq::new(
        min_of(old.len() as int, new.len() as int) as nat,
        |i: int|
            AnnotatedMove {
                mv: new[i].mv,
                sc: min_of(new[i].sc + mean_score_drop(old, new), old[i].sc as int) as MoveScore,
                node_count: new[i].node_count,
            },
    )
}

proof fn lemma_score_drop_sum_bounds(old: Seq<AnnotatedMove>, new: Seq<AnnotatedMove>, k: int)
    requires
        0 <= k <= old.len(),
        k <= new.len(),
        in_window(old),
        in_window(new),
    ensures
        -(k * (MAX_INT - MIN_INT)) <= score_drop_sum(old, new, k) <= k * (MAX_INT - MIN_INT),
    decreases k,
{
    if k > 0 {
        lemma_score_drop_sum_bounds(old, new, k - 1);
        assert(MIN_INT <= old[k - 1].sc <= MAX_INT);
        assert(MIN_INT <= new[k - 1].sc <= MAX_INT);
    }
}

proof fn lemma_score_drop_sum_same(old: Seq<AnnotatedMove>, new: Seq<AnnotatedMove>, k: int)
    requires
        0 <= k <= old.len(),
        k <= new.len(),
        forall|i: int| 0 <= i < k ==> #[trigger] old[i].sc == new[i].sc,
    ensures
        score_drop_sum(old, new, k) == 0,
    decreases k,
{
    if k > 0 {
        lemma_score_drop_sum_same(old, new, k - 1);
    }
}

/// Law: scores that did not change from one iteration to the next stay as
/// they are when evened out: the moves come out as the new iteration gave
/// them.
pub proof fn lemma_stabilise_unchanged_scores(old: Seq<AnnotatedMove>, new: Seq<AnnotatedMove>)
    requires
        old.len() == new.len(),
        new.len() > 0,
        forall|i: int| 0 <= i < new.len() ==> #[trigger] old[i].sc == new[i].sc,
    ensures
        spec_stabilise(old, new) == new,
{
    lemma_score_drop_sum_same(old, new, new.len() as int);
    assert(mean_score_drop(old, new) == 0);
    assert(spec_stabilise(old, new) =~= new);
}

/// Evens out the scores of an iteration against those of the iteration
/// before.
pub fn stabilise_search_results(old: &Vec<AnnotatedMove>, new: &Vec<AnnotatedMove>) -> (res: Vec<AnnotatedMove>)
    requires
        new@.len() > 0,
        new@.len() <= i32::MAX,
        in_window(old@),
        in_window(new@),
    ensures
        res@ == spec_stabilise(old@, new@),
{
    let len = new.len();
    let n = if old.len() < len { old.len() } else { len };
    let ghost width = (MAX_INT - MIN_INT) as int;
    let mut sum: i64 = 0;
    let mut i: usize = 0;
    while i < n
        invariant
            n <= old@.len(),
            n <= new@.len(),
            n == min_of(old@.len() as int, new@.len() as int),
            new@.len() <= i32::MAX,
            i <= n,
            in_window(old@),
            in_window(new@),
            width == MAX_INT - MIN_INT,
            sum == score_drop_sum(old@, new@, i as int),
        decreases n - i,
    {
        proof {
            lemma_score_drop_sum_bounds(old@, new@, i + 1);
            assert((i + 1) * width <= (i32::MAX as int) * width) by (nonlinear_arith)
                requires i + 1 <= i32::MAX, width >= 0;
            assert((i32::MAX as int) * width < i64::MAX);
            assert(score_drop_sum(old@, new@, i + 1) == sum + (old@[i as int].sc - new@[i as int].sc));
        }
        let drop = old[i].sc as i64 - new[i].sc as i64;
        sum = sum + drop;
        i = i + 1;
    }
    proof {
        lemma_score_drop_sum_bounds(old@, new@, n as int);
        assert(n * width <= (i32::MAX as int) * width) by (nonlinear_arith)
            requires n <= i32::MAX, width >= 0;
        assert((i32::MAX as int) * width < i64::MAX);
    }
    let mean: i64 = if sum >= 0 {
        (sum as u64 / len as u64) as i64
    } else {
        -(((-sum) as u64 / len as u64) as i64)
    };
    proof {
        assert(mean == mean_score_drop(old@, new@));
        lemma_mean_score_drop_bounds(old@, new@);
    }
    let mut res: Vec<AnnotatedMove> = Vec::new();
    let mut j: usize = 0;
    while j < n
        invariant
            n <= old@.len(),
            n <= new@.len(),
            n == min_of(old@.len() as int, new@.len() as int),
            new@.len() == len,
            j <= n,
            in_window(old@),
            in_window(new@),
            mean == mean_score_drop(old@, new@),
            -width <= mean <= width,
            width == MAX_INT - MIN_INT,
            res@.len() == j,
            forall|t: int| 0 <= t < j ==> #[trigger] res@[t] == spec_stabilise(old@, new@)[t],
        decreases n - j,
    {
        let shifted = new[j].sc as i64 + mean;
        let capped = if shifted <= old[j].sc as i64 { shifted } else { old[j].sc as i64 };
        let item = AnnotatedMove { mv: new[j].mv, sc: capped as i32, node_count: new[j].node_count };
        res.push(item);
        j = j + 1;
    }
    assert(res@ == spec_stabilise(old@, new@));
    res
}

// ---------------------------------------------------------------------------
// Counting nodes
// ---------------------------------------------------------------------------

/// The nodes searched for all the moves.
pub open spec fn total_nodes(s: Seq<AnnotatedMove>) -> nat
    decreases s.len(),
{
    if s.len() == 0 {
        0
    } else {
        total_nodes(s.drop_last()) + s.last().node_count as nat
    }
}

/// The nodes searched for all the moves, which must fit in a `u64`.
pub fn update_node_count(moves: &Vec<AnnotatedMove>) -> (count: u64)
    requires
        total_nodes(moves@) <= u64::MAX,
    ensures
        count == total_nodes(moves@),
{
    let mut count: u64 = 0;
    let mut i: usize = 0;
    while i < moves.len()
        invariant
            i <= moves@.len(),
            total_nodes(moves@) <= u64::MAX,
            count == total_nodes(moves@.take(i as int)),
        decreases moves@.len() - i,
    {
        proof {
            assert(moves@.take(i + 1).drop_last() == moves@.take(i as int));
            lemma_total_nodes_prefix(moves@, i + 1);
        }
        count = count + moves[i].node_count;
        i = i + 1;
    }
    assert(moves@.take(moves@.len() as int) == moves@);
    count
}

proof fn lemma_total_nodes_prefix(s: Seq<AnnotatedMove>, k: int)
    requires
        0 <= k <= s.len(),
    ensures
        total_nodes(s.take(k)) <= total_nodes(s),
    decreases s.len(),
{
    if k < s.len() {
        assert(s.drop_last().take(k) == s.take(k));
        lemma_total_nodes_prefix(s.drop_last(), k);
    } else {
        assert(s.take(k) == s);
    }
}

/// Law: evening out never raises a score above the score of the same
/// position in the iteration before, and keeps each move and its node count.
pub proof fn lemma_stabilise_caps_scores(old: Seq<AnnotatedMove>, new: Seq<AnnotatedMove>, i: int)
    requires
        0 <= i < spec_stabilise(old, new).len(),
        in_window(old),
        in_window(new),
    ensures
        spec_stabilise(old, new)[i].sc <= old[i].sc,
        spec_stabilise(old, new)[i].mv == new[i].mv,
        spec_stabilise(old, new)[i].node_count == new[i].node_count,
        spec_stabilise(old, new).len() == min_of(old.len() as int, new.len() as int),
{
    lemma_mean_score_drop_bounds(old, new);
    assert(MIN_INT <= old[i].sc <= MAX_INT);
    assert(MIN_INT <= new[i].sc <= MAX_INT);
}

/// The mean fall of the scores is no larger than the width of the window.
proof fn lemma_mean_score_drop_bounds(old: Seq<AnnotatedMove>, new: Seq<AnnotatedMove>)
    requires
        in_window(old),
        in_window(new),
        new.len() > 0,
    ensures
        -(MAX_INT - MIN_INT) <= mean_score_drop(old, new) <= MAX_INT - MIN_INT,
{
    let k = min_of(old.len() as int, new.len() as int);
    let len = new.len() as int;
    let width = (MAX_INT - MIN_INT) as int;
    lemma_score_drop_sum_bounds(old, new, k);
    let d = score_drop_sum(old, new, k);
    assert(-width <= div_toward_zero(d, len) <= width) by (nonlinear_arith)
        requires
            -(k * width) <= d <= k * width,
            0 <= k <= len,
            len > 0,
            width >= 0,
    {
        if d >= 0 {
            assert(d / len <= (len * width) / len);
        } else {
            assert((-d) / len <= (len * width) / len);
        }
    }
}

// ---------------------------------------------------------------------------
// Forward pruning
// ---------------------------------------------------------------------------

/// How many root moves forward pruning keeps out of `len`.
pub open spec fn prune_cut(len: int) -> int {
    if FORWARD_PRUNING_MINIMUM >= len / (FORWARD_PRUNING_RATIO as int) {
        FORWARD_PRUNING_MINIMUM as int
    } else {
        len / (FORWARD_PRUNING_RATIO as int)
    }
}

/// From the pruning depth on, when the ranked moves do not all score the same,
/// only the best `prune_cut` of them are kept.
pub open spec fn spec_forward_prune(s: Seq<AnnotatedMove>, depth: int) -> Seq<AnnotatedMove> {
    if depth >= FORWARD_PRUNING_DEPTH_START && s.len() > 0 && s.last().sc < s[0].sc
        && prune_cut(s.len() as int) < s.len() {
        s.take(prune_cut(s.len() as int))
    } else {
        s
    }
}

/// Prunes the ranked root moves after an iteration at `depth`.
pub fn forward_prune(moves: &mut Vec<AnnotatedMove>, depth: Depth)
    ensures
        final(moves)@ == spec_forward_prune(old(moves)@, depth as int),
{
    if depth >= FORWARD_PRUNING_DEPTH_START && moves.len() > 0 {
        let count = moves.len();
        let worst = moves[count - 1].sc;
        if worst < moves[0].sc {
            let share = count / FORWARD_PRUNING_RATIO;
            let cut = if FORWARD_PRUNING_MINIMUM >= share { FORWARD_PRUNING_MINIMUM } else { share };
            moves.truncate(cut);
        }
    }
}

/// Law: from the pruning depth on, at every depth, a ranked list whose
/// scores are not all the same is cut to its best `max(4, len / 2)` moves
/// (all of them when that is not fewer); below the pruning depth, or when
/// all scores are the same, nothing is pruned.
pub proof fn lemma_forward_prune_length(s: Seq<AnnotatedMove>, depth: int)
    ensures
        depth >= FORWARD_PRUNING_DEPTH_START && s.len() > 0 && s.last().sc < s[0].sc ==> {
            let keep = if (s.len() / 2) as int > 4 { (s.len() / 2) as int } else { 4 };
            &&& keep < s.len() ==> spec_forward_prune(s, depth) == s.take(keep)
            &&& keep >= s.len() ==> spec_forward_prune(s, depth) == s
        },
        depth < FORWARD_PRUNING_DEPTH_START ==> spec_forward_prune(s, depth) == s,
        s.len() > 0 && s.last().sc == s[0].sc ==> spec_forward_prune(s, depth) == s,
{
}

/// Law: pruning keeps a prefix of the ranked moves (the best ones), never
/// fewer than the pruning minimum nor fewer than there were when that is less.
pub proof fn lemma_forward_prune_keeps_best(s: Seq<AnnotatedMove>, depth: int)
    ensures
        spec_forward_prune(s, depth) == s.take(spec_forward_prune(s, depth).len() as int),
        spec_forward_prune(s, depth).len() >= min_of(s.len() as int, FORWARD_PRUNING_MINIMUM as int),
        spec_forward_prune(s, depth).len() <= s.len(),
{
    assert(s.take(s.len() as int) == s);
}

// ---------------------------------------------------------------------------
// The controller
// ---------------------------------------------------------------------------

/// `count` root moves, unscored: each stands for the legal move at its place.
pub open spec fn root_seq(count: nat) -> Seq<AnnotatedMove> {
    Seq::new(count, |i: int| AnnotatedMove { mv: i as usize, sc: 0, node_count: 0 })
}

/// The root moves of a position with these legal moves, unscored, in the
/// order of the list: each stands for the move at its place.
pub fn root_moves(legal: &Vec<String>) -> (moves: Vec<AnnotatedMove>)
    ensures
        moves@ == root_seq(legal@.len()),
        moves@.len() == legal@.len(),
        forall|i: int| 0 <= i < moves@.len() ==> #[trigger] moves@[i].mv == i
            && moves@[i].sc == 0 && moves@[i].node_count == 0,
{
    let mut moves: Vec<AnnotatedMove> = Vec::new();
    let mut i: usize = 0;
    while i < legal.len()
        invariant
            i <= legal@.len(),
            moves@.len() == i,
            forall|t: int| 0 <= t < i ==> #[trigger] moves@[t].mv == t
                && moves@[t].sc == 0 && moves@[t].node_count == 0,
        decreases legal@.len() - i,
    {
        moves.push(AnnotatedMove { mv: i, sc: 0, node_count: 0 });
        i = i + 1;
    }
    assert forall|t: int| 0 <= t < moves@.len() implies moves@[t] == #[trigger] root_seq(legal@.len())[t] by {
        assert(moves@[t].mv == t);
    }
    assert(moves@ =~= root_seq(legal@.len()));
    moves
}

/// Every move of the sequence stands for one of the first `count` legal
/// moves.
pub open spec fn moves_below(s: Seq<AnnotatedMove>, count: int) -> bool {
    forall|i: int| 0 <= i < s.len() ==> #[trigger] s[i].mv < count
}

proof fn lemma_sort_moves_below(s: Seq<AnnotatedMove>, count: int)
    requires
        moves_below(s, count),
    ensures
        moves_below(sort_by_score(s), count),
{
    lemma_sort_by_score(s);
    let r = sort_by_score(s);
    assert forall|i: int| 0 <= i < r.len() implies #[trigger] r[i].mv < count by {
        assert(r.to_multiset().count(r[i]) > 0);
        assert(s.contains(r[i]));
        let j = choose|j: int| 0 <= j < s.len() && s[j] == r[i];
        assert(s[j].mv < count);
    }
}

/// What the controller asks for next.
pub enum DeepeningStep {
    /// Score every root move with a search of this depth.
    Search(Depth),
    /// The search is over; this is the move to play, if any.
    Finished(Option<usize>),
}

/// The state of an iterative deepening search.
pub struct Deepening {
    /// The number of legal moves of the position searched.
    pub root_count: usize,
    /// The deepest iteration.
    pub max_depth: Depth,
    /// The depth of the iteration under way.
    pub current_depth: Depth,
    /// The root moves, ranked after each iteration.
    pub moves: Vec<AnnotatedMove>,
    /// The root moves as the last finished iteration left them.
    pub previous: Vec<AnnotatedMove>,
    /// The best move of the last finished iteration.
    pub best_move: Option<usize>,
    /// Its score.
    pub best_value: MoveScore,
    /// The nodes searched so far in the game.
    pub node_count: u64,
}

/// The root moves with the scores and node counts of an iteration.
pub open spec fn spec_apply_results(moves: Seq<AnnotatedMove>, results: Seq<(MoveScore, u64)>) -> Seq<AnnotatedMove> {
    Seq::new(
        moves.len(),
        |i: int| AnnotatedMove { mv: moves[i].mv, sc: results[i].0, node_count: results[i].1 },
    )
}

/// Every score of an iteration lies in the window of the search.
pub open spec fn results_in_window(results: Seq<(MoveScore, u64)>) -> bool {
    forall|i: int| 0 <= i < results.len() ==> MIN_INT <= #[trigger] results[i].0 <= MAX_INT
}

proof fn lemma_sort_in_window(s: Seq<AnnotatedMove>)
    requires
        in_window(s),
    ensures
        in_window(sort_by_score(s)),
{
    lemma_sort_by_score(s);
    let r = sort_by_score(s);
    assert forall|i: int| 0 <= i < r.len() implies MIN_INT <= #[trigger] r[i].sc <= MAX_INT by {
        assert(r.to_multiset().count(r[i]) > 0);
        assert(s.contains(r[i]));
        let j = choose|j: int| 0 <= j < s.len() && s[j] == r[i];
        assert(MIN_INT <= s[j].sc <= MAX_INT);
    }
}

/// The state of an iterative deepening search that decides its outcome:
/// the depth of the iteration under way, the root moves, the moves as the
/// last finished iteration left them, and its best move.
pub type DeepeningState = (int, Seq<AnnotatedMove>, Seq<AnnotatedMove>, Option<usize>);

/// The state a search of the root moves `root` starts in.
pub open spec fn initial_state(root: Seq<AnnotatedMove>) -> DeepeningState {
    (0, root, Seq::empty(), None)
}

/// The ranked root moves after an iteration with these results: evened out
/// against the last iteration when the depth is odd, then ranked.
pub open spec fn ranked_after(st: DeepeningState, results: Seq<(MoveScore, u64)>) -> Seq<AnnotatedMove> {
    let applied = spec_apply_results(st.1, results);
    if st.0 % 2 == 1 {
        sort_by_score(spec_stabilise(st.2, applied))
    } else {
        sort_by_score(applied)
    }
}

/// Law: what one step of the search does, at every depth.  When time is
/// up, the best move of the last finished iteration is played.  Otherwise
/// the first of the ranked moves is the best move: it is played at once on
/// a mate score or after the deepest iteration; else the search goes one
/// ply deeper with the pruned ranked moves, which are also the moves the
/// next iteration is evened out against.
pub proof fn lemma_deepen_next_cases(st: DeepeningState, results: Seq<(MoveScore, u64)>, time_left: bool,
    max_depth: int)
    ensures
        !time_left ==> deepen_next(st, results, time_left, max_depth).0 == Some(st.3),
        time_left && (ranked_after(st, results)[0].sc > MATE_LEVEL || st.0 >= max_depth)
            ==> deepen_next(st, results, time_left, max_depth).0 == Some(Some(ranked_after(st, results)[0].mv)),
        time_left && ranked_after(st, results)[0].sc <= MATE_LEVEL && st.0 < max_depth ==> {
            let kept = spec_forward_prune(ranked_after(st, results), st.0);
            &&& deepen_next(st, results, time_left, max_depth).0 is None
            &&& deepen_next(st, results, time_left, max_depth).1
                == (st.0 + 1, kept, kept, Some(ranked_after(st, results)[0].mv))
        },
{
}

/// Law: at every odd depth (1, 3, 5, ...) the scores of an iteration are
/// evened out against the iteration before and then ranked; at every even
/// depth they are ranked as they are.
pub proof fn lemma_ranked_after_parity(k: int, moves: Seq<AnnotatedMove>, previous: Seq<AnnotatedMove>,
    best: Option<usize>, results: Seq<(MoveScore, u64)>)
    requires
        k >= 0,
    ensures
        ranked_after((2 * k + 1, moves, previous, best), results)
            == sort_by_score(spec_stabilise(previous, spec_apply_results(moves, results))),
        ranked_after((2 * k, moves, previous, best), results)
            == sort_by_score(spec_apply_results(moves, results)),
{
    assert((2 * k + 1) % 2 == 1);
    assert((2 * k) % 2 == 0);
}

/// One step of the search: from the state `st`, the results of its
/// iteration and whether time is left, either the search is over with a
/// move to play, if any (`Some`), or it goes on in the state given (`None`).
/// When time is up, the best move of the last finished iteration is played;
/// else the ranked moves give the best move, which is played at once on a
/// mate score or after the last iteration; otherwise the pruned moves are
/// searched one ply deeper.
pub open spec fn deepen_next(st: DeepeningState, results: Seq<(MoveScore, u64)>, time_left: bool, max_depth: int)
    -> (Option<Option<usize>>, DeepeningState)
{
    if !time_left {
        (Some(st.3), st)
    } else {
        let ranked = ranked_after(st, results);
        let best = Some(ranked[0].mv);
        if ranked[0].sc > MATE_LEVEL || st.0 >= max_depth {
            (Some(best), st)
        } else {
            let kept = spec_forward_prune(ranked, st.0);
            (None, (st.0 + 1, kept, kept, best))
        }
    }
}

impl Deepening {
    /// The invariant between iterations: there are root moves, the depth is
    /// in range, and before an odd iteration the moves of the last iteration
    /// are at hand, one for each root move, with scores in the window.
    pub open spec fn well_formed(&self) -> bool {
        &&& 1 <= self.moves@.len() <= i32::MAX
        &&& moves_below(self.moves@, self.root_count as int)
        &&& self.best_move matches Some(b) ==> b < self.root_count
        &&& 0 <= self.current_depth <= self.max_depth
        &&& self.current_depth % 2 == 1 ==> {
            &&& self.previous@.len() == self.moves@.len()
            &&& in_window(self.previous@)
        }
    }

    /// The ranked root moves after an iteration with these results: evened
    /// out against the last iteration when the depth is odd, then ranked.
    pub open spec fn spec_ranked(&self, results: Seq<(MoveScore, u64)>) -> Seq<AnnotatedMove> {
        ranked_after(self.model(), results)
    }

    /// What decides the rest of the search: the depth of the iteration under
    /// way, the root moves, the moves of the last finished iteration, and its
    /// best move.
    pub open spec fn model(&self) -> DeepeningState {
        (self.current_depth as int, self.moves@, self.previous@, self.best_move)
    }

    /// Starts a search of the root moves `root`, each one of the position's
    /// `root_count` legal moves, up to `max_depth`, with the game's node count
    /// so far.  With no root move there is nothing to play; with one, it is
    /// played without a search; with more, the first iteration, at depth 0,
    /// is asked for (none when `max_depth` is below 0).
    pub fn start(root: Vec<AnnotatedMove>, root_count: usize, max_depth: Depth, node_count: u64) -> (res: (Deepening, DeepeningStep))
        requires
            root@.len() <= i32::MAX,
            moves_below(root@, root_count as int),
        ensures
            res.0.root_count == root_count,
            root@.len() == 0 ==> res.1 == DeepeningStep::Finished(None),
            root@.len() == 1 ==> res.1 == DeepeningStep::Finished(Some(root@[0].mv)),
            root@.len() >= 2 && max_depth < 0 ==> res.1 == DeepeningStep::Finished(None),
            root@.len() >= 2 && max_depth >= 0 ==> {
                &&& res.1 == DeepeningStep::Search(0)
                &&& res.0.well_formed()
                &&& res.0.current_depth == 0
                &&& res.0.max_depth == max_depth
                &&& res.0.moves@ == root@
                &&& res.0.best_move is None
                &&& res.0.model() == initial_state(root@)
                &&& res.0.node_count == node_count
            },
    {
        let step = if root.len() == 0 {
            DeepeningStep::Finished(None)
        } else if root.len() == 1 {
            DeepeningStep::Finished(Some(root[0].mv))
        } else if max_depth < 0 {
            DeepeningStep::Finished(None)
        } else {
            DeepeningStep::Search(0)
        };
        let state = Deepening {
            root_count,
            max_depth,
            current_depth: 0,
            moves: root,
            previous: Vec::new(),
            best_move: None,
            best_value: MIN_INT,
            node_count,
        };
        (state, step)
    }

    /// Takes the results of the iteration at `current_depth` (a score and a
    /// node count for each root move, in order) and whether time is left.
    ///
    /// When the time is up, the nodes are counted and the best move of the
    /// last finished iteration is played.  Otherwise the moves are evened out
    /// (odd depths) and ranked; the first becomes the best move; a mate score
    /// ends the search at once; else the nodes are counted, the moves are
    /// pruned, and the next iteration is asked for until `max_depth` is done.
    pub fn after_search(&mut self, results: &Vec<(MoveScore, u64)>, time_left: bool) -> (step: DeepeningStep)
        requires
            old(self).well_formed(),
            results@.len() == old(self).moves@.len(),
            results_in_window(results@),
            old(self).node_count + total_nodes(spec_apply_results(old(self).moves@, results@)) <= u64::MAX,
        ensures
            final(self).root_count == old(self).root_count,
            step matches DeepeningStep::Finished(Some(b)) ==> b < old(self).root_count,
            ({
                let (finished, next) = deepen_next(old(self).model(), results@, time_left,
                    old(self).max_depth as int);
                &&& finished matches Some(b) ==> step == DeepeningStep::Finished(b)
                &&& finished is None ==> step is Search && final(self).model() == next
            }),
            !time_left ==> {
                &&& step == DeepeningStep::Finished(old(self).best_move)
                &&& final(self).node_count == old(self).node_count
                    + total_nodes(spec_apply_results(old(self).moves@, results@))
            },
            time_left ==> {
                let ranked = old(self).spec_ranked(results@);
                &&& ranked.len() == old(self).moves@.len()
                &&& final(self).best_move == Some(ranked[0].mv)
                &&& final(self).best_value == ranked[0].sc
                &&& ranked[0].sc > MATE_LEVEL ==> {
                    &&& step == DeepeningStep::Finished(Some(ranked[0].mv))
                    &&& final(self).node_count == old(self).node_count
                }
                &&& ranked[0].sc <= MATE_LEVEL ==> {
                    &&& final(self).node_count == old(self).node_count
                        + total_nodes(spec_apply_results(old(self).moves@, results@))
                    &&& final(self).moves@ == spec_forward_prune(ranked, old(self).current_depth as int)
                    &&& old(self).current_depth >= old(self).max_depth ==> step == DeepeningStep::Finished(Some(ranked[0].mv))
                    &&& old(self).current_depth < old(self).max_depth ==> {
                        &&& step == DeepeningStep::Search((old(self).current_depth + 1) as Depth)
                        &&& final(self).current_depth == old(self).current_depth + 1
                        &&& final(self).max_depth == old(self).max_depth
                        &&& final(self).well_formed()
                    }
                }
            },
    {
        let ghost applied_spec = spec_apply_results(self.moves@, results@);
        let mut applied: Vec<AnnotatedMove> = Vec::new();
        let mut i: usize = 0;
        while i < results.len()
            invariant
                i <= results@.len(),
                results@.len() == self.moves@.len(),
                applied_spec == spec_apply_results(self.moves@, results@),
                applied@.len() == i,
                forall|t: int| 0 <= t < i ==> #[trigger] applied@[t] == applied_spec[t],
            decreases results@.len() - i,
        {
            let (sc, nodes) = results[i];
            applied.push(AnnotatedMove { mv: self.moves[i].mv, sc, node_count: nodes });
            i = i + 1;
        }
        assert(applied@ == applied_spec);
        assert(in_window(applied@));
        proof {
            lemma_total_nodes_prefix(applied@, 0);
        }
        let nodes = update_node_count(&applied);
        if !time_left {
            self.node_count = self.node_count + nodes;
            self.moves = applied;
            return DeepeningStep::Finished(self.best_move);
        }
        let mut ranked = if self.current_depth % 2 == 1 {
            stabilise_search_results(&self.previous, &applied)
        } else {
            applied
        };
        sort_by_score_desc(&mut ranked);
        proof {
            let unsorted = if old(self).current_depth % 2 == 1 {
                spec_stabilise(old(self).previous@, applied_spec)
            } else {
                applied_spec
            };
            lemma_sort_by_score(unsorted);
            assert(moves_below(unsorted, self.root_count as int));
            lemma_sort_moves_below(unsorted, self.root_count as int);
        }
        let best = ranked[0];
        self.best_move = Some(best.mv);
        self.best_value = best.sc;
        if best.sc > MATE_LEVEL {
            self.moves = ranked;
            return DeepeningStep::Finished(self.best_move);
        }
        self.node_count = self.node_count + nodes;
        let ghost unpruned = ranked@;
        forward_prune(&mut ranked, self.current_depth);
        proof {
            lemma_forward_prune_keeps_best(unpruned, self.current_depth as int);
            assert forall|t: int| 0 <= t < ranked@.len() implies #[trigger] ranked@[t].mv < self.root_count by {
                assert(ranked@[t] == unpruned[t]);
            }
        }
        self.moves = ranked;
        if self.current_depth >= self.max_depth {
            return DeepeningStep::Finished(self.best_move);
        }
        self.current_depth = self.current_depth + 1;
        self.previous = self.moves.clone();
        proof {
            assert(self.previous@ =~= self.moves@);
            if self.current_depth % 2 == 1 {
                lemma_sort_in_window(applied_spec);
                assert(in_window(self.moves@)) by {
                    assert forall|t: int| 0 <= t < self.moves@.len() implies
                        MIN_INT <= #[trigger] self.moves@[t].sc <= MAX_INT by {
                        assert(self.moves@[t] == unpruned[t]);
                    }
                }
            }
        }
        DeepeningStep::Search(self.current_depth)
    }
}

} // verus!
