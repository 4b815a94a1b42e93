use tsuki_scheduler::schedule::iter::sorted_instants;
use tsuki_scheduler::schedule::period::time_mod;
use tsuki_scheduler::schedule::{
    every, forward_to_default, IntoSchedule, Iter, Never, Once, Period, PeriodError, Schedule,
};
use tsuki_scheduler::{now, Dtu, TimeDelta};

fn t(n: i128) -> Dtu {
    Dtu::from_nanos(n)
}

fn span(n: i128) -> TimeDelta {
    TimeDelta { nanos: n }
}

#[test]
fn never_never_fires() {
    let mut never = Never;
    assert_eq!(never.peek_next(), None);
    assert_eq!(never.next(), None);
    never.forward_to(t(5));
    assert_eq!(never.next(), None);
}

#[test]
fn once_fires_once() {
    let mut once = Once::new(t(5));
    assert_eq!(once.peek_next(), Some(t(5)));
    assert_eq!(once.peek_next(), Some(t(5)));
    assert_eq!(once.next(), Some(t(5)));
    assert_eq!(once.peek_next(), None);
    assert_eq!(once.next(), None);
}

#[test]
fn once_is_skipped_by_its_own_instant() {
    let mut once = Once::new(t(5));
    once.forward_to(t(4));
    assert_eq!(once.peek_next(), Some(t(5)));
    once.forward_to(t(5));
    assert_eq!(once.peek_next(), None);
    let mut later = t(5).into_schedule();
    later.forward_to(t(9));
    assert_eq!(later.next(), None);
}

#[test]
fn iter_yields_in_order_and_skips_strictly() {
    let mut iter = Iter::new(vec![t(1), t(2), t(2), t(5)]);
    assert_eq!(iter.peek_next(), Some(t(1)));
    assert_eq!(iter.next(), Some(t(1)));
    iter.forward_to(t(2));
    assert_eq!(iter.peek_next(), Some(t(5)));
    iter.forward_to(t(4));
    assert_eq!(iter.next(), Some(t(5)));
    assert_eq!(iter.next(), None);
    assert_eq!(iter.next(), None);
    iter.forward_to(t(100));
    assert_eq!(iter.peek_next(), None);
}

#[test]
fn lists_are_sorted_when_turned_into_schedules() {
    let mut iter = vec![t(3), t(1), t(2), t(1)].into_schedule();
    assert_eq!(iter.next(), Some(t(1)));
    assert_eq!(iter.next(), Some(t(1)));
    assert_eq!(iter.next(), Some(t(2)));
    assert_eq!(iter.next(), Some(t(3)));
    assert_eq!(iter.next(), None);
    assert_eq!(sorted_instants(&vec![]), vec![]);
    assert_eq!(sorted_instants(&vec![t(2), t(-1), t(2), t(0)]), vec![t(-1), t(0), t(2), t(2)]);
}

#[test]
fn an_optional_instant_fires_at_most_once() {
    let mut some = Some(t(4)).into_schedule();
    assert_eq!(some.next(), Some(t(4)));
    assert_eq!(some.next(), None);
    let mut none = None::<Dtu>.into_schedule();
    assert_eq!(none.next(), None);
}

#[test]
fn forward_to_default_skips_by_calling_next() {
    let mut iter = Iter::new(vec![t(1), t(2), t(3), t(8)]);
    assert_eq!(forward_to_default(&mut iter, t(3), 100), 3);
    assert_eq!(iter.peek_next(), Some(t(8)));
    assert_eq!(forward_to_default(&mut iter, t(3), 100), 0);
    let mut iter = Iter::new(vec![t(1), t(2), t(3), t(8)]);
    assert_eq!(forward_to_default(&mut iter, t(10), 2), 2);
    assert_eq!(iter.peek_next(), Some(t(3)));
    assert_eq!(forward_to_default(&mut iter, t(10), 100), 2);
    assert_eq!(iter.peek_next(), None);
}

#[test]
fn period_needs_a_positive_period() {
    assert_eq!(Period::new_at(span(0), t(0), t(0)), Err(PeriodError::NotPositive));
    assert_eq!(Period::new_at(span(-1), t(0), t(0)), Err(PeriodError::NotPositive));
    assert_eq!(Period::new(span(0), now()), Err(PeriodError::NotPositive));
    assert_eq!(every(span(0)), Err(PeriodError::NotPositive));
    assert!(every(span(1)).is_ok());
}

#[test]
fn period_needs_a_start_less_than_a_period_ago() {
    assert_eq!(Period::new_at(span(10), t(90), t(100)), Err(PeriodError::Stale));
    assert_eq!(Period::new_at(span(10), t(0), t(100)), Err(PeriodError::Stale));
    let fresh = Period::new_at(span(10), t(91), t(100)).expect("less than a period ago");
    assert_eq!(fresh.period(), span(10));
    assert_eq!(fresh.get_next(), Some(t(91)));
    assert!(Period::new_at(span(10), t(500), t(100)).is_ok());
    // the limit itself cannot be represented: every start is fresh
    assert!(Period::new_at(span(10), t(i128::MIN), t(i128::MIN + 5)).is_ok());
    let stale = now().checked_sub(TimeDelta::days(2)).unwrap();
    assert_eq!(Period::new(TimeDelta::days(1), stale), Err(PeriodError::Stale));
}

#[test]
fn period_steps_by_its_period() {
    let mut period = Period::new_at(span(10), t(3), t(0)).unwrap();
    assert_eq!(period.peek_next(), Some(t(3)));
    assert_eq!(period.next(), Some(t(3)));
    assert_eq!(period.next(), Some(t(13)));
    assert_eq!(period.next(), Some(t(23)));
    assert_eq!(period.get_next(), Some(t(33)));
}

#[test]
fn period_ends_where_instants_end() {
    let mut period = Period::new_at(span(5), t(i128::MAX - 1), t(0)).unwrap();
    assert_eq!(period.next(), Some(t(i128::MAX - 1)));
    assert_eq!(period.peek_next(), None);
    assert_eq!(period.next(), None);
    period.forward_to(t(0));
    assert_eq!(period.next(), None);
}

#[test]
fn period_skips_to_its_first_instant_after() {
    let start = Period::new_at(span(10), t(0), t(0)).unwrap();
    let skipped = |to: i128| {
        let mut period = start;
        period.forward_to(t(to));
        period.get_next()
    };
    assert_eq!(skipped(-1), Some(t(0)));
    assert_eq!(skipped(0), Some(t(10)));
    assert_eq!(skipped(9), Some(t(10)));
    assert_eq!(skipped(10), Some(t(20)));
    assert_eq!(skipped(25), Some(t(30)));
    assert_eq!(skipped(1_000_000_007), Some(t(1_000_000_010)));
}

#[test]
fn period_skips_with_a_period_of_seconds_and_nanoseconds() {
    let step = TimeDelta::new(30, 30_123_456).unwrap();
    let mut period = Period::new_at(step, t(0), t(0)).unwrap();
    period.forward_to(Dtu::from_nanos(TimeDelta::days(1).as_nanos()));
    // 86_400_000_000_000 = 2877 * 30_030_123_456 + 3_334_817_088
    assert_eq!(period.get_next(), Some(t(2878 * 30_030_123_456)));
}

#[test]
fn period_skips_across_the_whole_range_of_instants() {
    let mut period = Period::new_at(span(7), t(i128::MIN + 5), t(i128::MIN)).unwrap();
    let to = i128::MAX - 30;
    period.forward_to(t(to));
    let next = period.get_next().expect("there is room for one more");
    assert!(next.as_nanos() > to);
    assert!(next.as_nanos() - 7 <= to);
    // next and the start differ by a whole number of periods
    assert_eq!(next.as_nanos().rem_euclid(7), (i128::MIN + 5).rem_euclid(7));

    let mut period = Period::new_at(span(7), t(i128::MIN + 5), t(i128::MIN)).unwrap();
    period.forward_to(t(i128::MAX));
    assert_eq!(period.get_next(), None);
}

#[test]
fn time_mod_is_the_remainder() {
    let p = TimeDelta::new(30, 30_123_456).unwrap();
    assert_eq!(time_mod(TimeDelta::days(1), p), span(3_334_817_088));
    assert_eq!(time_mod(span(5), span(7)), span(5));
    assert_eq!(time_mod(span(7), span(7)), span(0));
    assert_eq!(time_mod(span(0), span(7)), span(0));
    assert_eq!(time_mod(span(-1), span(7)), span(6));
    assert_eq!(time_mod(span(i128::MAX), span(1_000_000_000)), span(i128::MAX % 1_000_000_000));
    assert_eq!(time_mod(span(i128::MIN), span(i128::MAX)), span(i128::MAX - 1));
}

#[test]
fn arrays_are_sorted_when_turned_into_schedules() {
    let mut iter = [t(3), t(1), t(2), t(1)].into_schedule();
    assert_eq!(iter.next(), Some(t(1)));
    assert_eq!(iter.next(), Some(t(1)));
    assert_eq!(iter.next(), Some(t(2)));
    assert_eq!(iter.next(), Some(t(3)));
    assert_eq!(iter.next(), None);
    let empty: [Dtu; 0] = [];
    let mut none = empty.into_schedule();
    assert_eq!(none.next(), None);
}

#[test]
fn every_positive_period_gives_a_schedule_from_now() {
    let before = now();
    let mut period = every(TimeDelta::days(1)).expect("a positive period");
    let first = period.next().expect("from now on");
    assert!(first >= before);
    assert_eq!(period.next(), first.checked_add(TimeDelta::days(1)));
    assert!(every(span(1)).is_ok());
    assert!(every(span(i128::MAX)).is_ok());
}
