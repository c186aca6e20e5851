use c4e5chess::search::{
    forward_prune, root_moves, sort_by_score_desc, stabilise_search_results, update_node_count, AnnotatedMove,
    Deepening, DeepeningStep,
};
/// The moves the tests use, each standing for its place in this list.
const MOVES: [&str; 7] = ["a2a3", "b2b3", "c2c3", "d2d3", "e2e3", "e2e4", "d2d4"];

fn mv(s: &str) -> usize {
    MOVES.iter().position(|m| *m == s).unwrap()
}

fn am(s: &str, sc: i32, node_count: u64) -> AnnotatedMove {
    AnnotatedMove { mv: mv(s), sc, node_count }
}

fn scores(v: &[AnnotatedMove]) -> Vec<i32> {
    v.iter().map(|m| m.sc).collect()
}

#[test]
fn sort_ranks_by_falling_score_and_is_stable() {
    let mut v = vec![am("a2a3", 5, 0), am("b2b3", 9, 0), am("c2c3", 5, 0), am("d2d3", -1, 0), am("e2e3", 9, 0)];
    sort_by_score_desc(&mut v);
    assert_eq!(scores(&v), vec![9, 9, 5, 5, -1]);
    assert_eq!(v[0].mv, mv("b2b3"));
    assert_eq!(v[1].mv, mv("e2e3"));
    assert_eq!(v[2].mv, mv("a2a3"));
    assert_eq!(v[3].mv, mv("c2c3"));
}

#[test]
fn sort_of_empty_and_single() {
    let mut v: Vec<AnnotatedMove> = vec![];
    sort_by_score_desc(&mut v);
    assert!(v.is_empty());
    let mut w = vec![am("a2a3", 1, 0)];
    sort_by_score_desc(&mut w);
    assert_eq!(scores(&w), vec![1]);
}

#[test]
fn stabilise_moves_scores_by_mean_drop_and_caps_at_old() {
    // drops: 100-60 = 40, 0-20 = -20 -> sum 20, mean 10
    let old = vec![am("a2a3", 100, 1), am("b2b3", 0, 1)];
    let new = vec![am("a2a3", 60, 7), am("b2b3", 20, 8)];
    let r = stabilise_search_results(&old, &new);
    assert_eq!(scores(&r), vec![70, 0]);
    assert_eq!(r[0].node_count, 7);
    assert_eq!(r[1].mv, mv("b2b3"));
}

#[test]
fn stabilise_divides_toward_zero() {
    // drops: -5 and 0 -> sum -5, divided by 2 -> -2 (toward zero)
    let old = vec![am("a2a3", 0, 0), am("b2b3", 10, 0)];
    let new = vec![am("a2a3", 5, 0), am("b2b3", 10, 0)];
    let r = stabilise_search_results(&old, &new);
    assert_eq!(scores(&r), vec![0, 8]);
}

#[test]
fn stabilise_keeps_the_shorter_length() {
    let old = vec![am("a2a3", 10, 0)];
    let new = vec![am("a2a3", 10, 0), am("b2b3", 3, 0)];
    let r = stabilise_search_results(&old, &new);
    assert_eq!(r.len(), 1);
    // sum 0 over one pair, divided by 2 new moves -> 0
    assert_eq!(scores(&r), vec![10]);
}

#[test]
fn node_count_sums() {
    assert_eq!(update_node_count(&vec![am("a2a3", 0, 3), am("b2b3", 0, 4)]), 7);
    assert_eq!(update_node_count(&vec![]), 0);
}

#[test]
fn pruning_from_depth_three_keeps_half_but_at_least_four() {
    let ten: Vec<AnnotatedMove> = (0..10).map(|i| am("a2a3", 100 - i, 0)).collect();
    let mut v = ten.clone();
    forward_prune(&mut v, 2);
    assert_eq!(v.len(), 10);
    let mut v = ten.clone();
    forward_prune(&mut v, 3);
    assert_eq!(scores(&v), vec![100, 99, 98, 97, 96]);
    let mut six: Vec<AnnotatedMove> = ten[..6].to_vec();
    forward_prune(&mut six, 5);
    assert_eq!(six.len(), 4);
    let mut flat = vec![am("a2a3", 1, 0); 10];
    forward_prune(&mut flat, 7);
    assert_eq!(flat.len(), 10);
}

#[test]
fn start_with_no_one_or_many_moves() {
    let (_, step) = Deepening::start(vec![], 0, 5, 0);
    assert!(matches!(step, DeepeningStep::Finished(None)));
    let (_, step) = Deepening::start(vec![am("e2e4", 0, 0)], MOVES.len(), 5, 0);
    assert!(matches!(step, DeepeningStep::Finished(Some(m)) if m == mv("e2e4")));
    let (_, step) = Deepening::start(vec![am("e2e4", 0, 0), am("d2d4", 0, 0)], MOVES.len(), -1, 0);
    assert!(matches!(step, DeepeningStep::Finished(None)));
    let (_, step) = Deepening::start(vec![am("e2e4", 0, 0), am("d2d4", 0, 0)], MOVES.len(), 0, 0);
    assert!(matches!(step, DeepeningStep::Search(0)));
}

#[test]
fn deepening_runs_to_max_depth_and_takes_the_best() {
    let (mut st, _) = Deepening::start(vec![am("e2e4", 0, 0), am("d2d4", 0, 0)], MOVES.len(), 1, 10);
    let step = st.after_search(&vec![(5, 2), (8, 3)], true);
    assert!(matches!(step, DeepeningStep::Search(1)));
    assert_eq!(st.best_move, Some(mv("d2d4")));
    assert_eq!(st.best_value, 8);
    assert_eq!(st.node_count, 15);
    // depth 1 is odd: results are evened out against depth 0
    // previous (ranked): d2d4 8, e2e4 5; now d2d4 -> 0, e2e4 -> 20
    // drops: 8-0 = 8, 5-20 = -15 -> -7 / 2 -> -3
    // d2d4: min(0 - 3, 8) = -3; e2e4: min(20 - 3, 5) = 5
    let step = st.after_search(&vec![(0, 1), (20, 1)], true);
    assert!(matches!(step, DeepeningStep::Finished(Some(m)) if m == mv("e2e4")));
    assert_eq!(st.best_value, 5);
    assert_eq!(st.node_count, 17);
}

#[test]
fn deepening_stops_when_time_is_up() {
    let (mut st, _) = Deepening::start(vec![am("e2e4", 0, 0), am("d2d4", 0, 0)], MOVES.len(), 9, 0);
    let step = st.after_search(&vec![(5, 2), (8, 3)], true);
    assert!(matches!(step, DeepeningStep::Search(1)));
    let step = st.after_search(&vec![(50, 4), (1, 4)], false);
    // the best move of the last finished iteration is played
    assert!(matches!(step, DeepeningStep::Finished(Some(m)) if m == mv("d2d4")));
    assert_eq!(st.node_count, 13);
}

#[test]
fn deepening_stops_at_time_up_in_first_iteration_with_no_move() {
    let (mut st, _) = Deepening::start(vec![am("e2e4", 0, 0), am("d2d4", 0, 0)], MOVES.len(), 9, 0);
    let step = st.after_search(&vec![(5, 2), (8, 3)], false);
    assert!(matches!(step, DeepeningStep::Finished(None)));
}

#[test]
fn deepening_stops_on_mate_without_counting_nodes() {
    let (mut st, _) = Deepening::start(vec![am("e2e4", 0, 0), am("d2d4", 0, 0)], MOVES.len(), 9, 4);
    let step = st.after_search(&vec![(5, 2), (950_000, 3)], true);
    assert!(matches!(step, DeepeningStep::Finished(Some(m)) if m == mv("d2d4")));
    assert_eq!(st.node_count, 4);
}

#[test]
fn root_moves_stand_for_their_places() {
    let legal: Vec<String> = ["e2e4", "d2d4", "g1f3"].iter().map(|s| s.to_string()).collect();
    let r = root_moves(&legal);
    assert_eq!(r.len(), 3);
    for (i, m) in r.iter().enumerate() {
        assert_eq!(m.mv, i);
        assert_eq!(m.sc, 0);
        assert_eq!(m.node_count, 0);
    }
    assert!(root_moves(&vec![]).is_empty());
}
