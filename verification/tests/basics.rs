use chrusty::timer::Timer;
use chrusty::helpers::avg;
use chrusty::heuristic::History;
use chrusty::param::{is_decisive, is_loss, is_valid, is_win, lose_in, win_in, VALUE_CHECKMATE, VALUE_INF, VALUE_NONE};

#[test]
fn avg_rounds_toward_zero() {
    assert_eq!(avg(3, 4), 3);
    assert_eq!(avg(-3, -4), -3);
    assert_eq!(avg(-3, 0), -1);
    assert_eq!(avg(i16::MAX, i16::MAX), i16::MAX);
}

#[test]
fn mate_scores() {
    assert_eq!(win_in(3), VALUE_INF - 3);
    assert_eq!(lose_in(3), -VALUE_INF + 3);
    assert!(is_win(win_in(10)));
    assert!(is_loss(lose_in(10)));
    assert!(is_decisive(win_in(10)) && is_decisive(lose_in(10)));
    assert!(!is_decisive(VALUE_CHECKMATE));
    assert!(!is_valid(VALUE_NONE));
    assert!(is_valid(0));
}

#[test]
fn history_gravity() {
    let mut h: History<20000> = History::new();
    assert_eq!(h.get(), 0);
    h.add(1000);
    assert_eq!(h.get(), 1000);
    // 1000 + 1000 - 1000 * 1000 / 20000 = 1950
    h.add(1000);
    assert_eq!(h.get(), 1950);
    // a bonus beyond the limit is clamped
    h.add(30000);
    assert_eq!(h.get(), 20000);
    h.add(30000);
    assert_eq!(h.get(), 20000);
    h.add(-20000);
    assert_eq!(h.get(), -20000);
}

#[test]
fn time_plan_integer_steps() {
    assert_eq!(Timer::budget_left(60_000, 1_000), 60_000 + 29_000 - 600);
    assert_eq!(Timer::budget_left(1_000, 0), 400);
    assert_eq!(Timer::plan_limits(60_000, 1_990), (1_990, 7_960));
    // the maximum is capped at 80% of the clock less the overhead
    assert_eq!(Timer::plan_limits(1_000, 500), (500, 790));
    // and both stay at least 10 ms
    assert_eq!(Timer::plan_limits(0, 3), (10, 10));
}
