use c4e5chess::chess::Side;
use c4e5chess::time_management::{move_time_fraction, TimeManagement};

#[test]
fn fraction_grows_from_early_to_late() {
    assert_eq!(move_time_fraction(0), 20);
    assert_eq!(move_time_fraction(20), 30);
    assert_eq!(move_time_fraction(40), 40);
    assert_eq!(move_time_fraction(1000), 40);
}

#[test]
fn allotted_time_uses_side_clock() {
    let tm = TimeManagement { white_time: 60_000, black_time: 1_000, white_inc: 1_000, black_inc: 0, moves_to_go: 0 };
    assert_eq!(tm.allotted_time(Side::White, 0), 3_500);
    assert_eq!(tm.allotted_time(Side::Black, 0), 100);
}

#[test]
fn more_clock_never_gives_less_time() {
    let mut last = 0;
    for t in [0u64, 150, 199, 200, 1_000, 2_100, 10_000, 60_000, 1_000_000] {
        let tm = TimeManagement { white_time: t, black_time: 0, white_inc: 300, black_inc: 0, moves_to_go: 0 };
        let m = tm.allotted_time(Side::White, 10);
        assert!(m >= last);
        assert!(m >= 100);
        last = m;
    }
}

#[test]
fn the_other_clock_plays_no_part() {
    let a = TimeManagement { white_time: 30_000, black_time: 5, white_inc: 200, black_inc: 9, moves_to_go: 3 };
    let b = TimeManagement { white_time: 30_000, black_time: 90_000, white_inc: 200, black_inc: 0, moves_to_go: 0 };
    assert_eq!(a.allotted_time(Side::White, 7), b.allotted_time(Side::White, 7));
}
