use tsuki_scheduler::schedule::{
    After, Before, Cron, CronError, Iter, Never, Once, Or, Period, Schedule, ScheduleExt, Then, Throttling,
};
use tsuki_scheduler::{Dtu, TimeDelta};

fn t(n: i128) -> Dtu {
    Dtu::from_nanos(n)
}

fn span(n: i128) -> TimeDelta {
    TimeDelta { nanos: n }
}

fn list(items: &[i128]) -> Iter {
    Iter::new(items.iter().map(|n| t(*n)).collect())
}

fn drain<S: Schedule>(schedule: &mut S, limit: usize) -> Vec<i128> {
    let mut yields = Vec::new();
    while yields.len() < limit {
        match schedule.next() {
            Some(y) => yields.push(y.as_nanos()),
            None => break,
        }
    }
    yields
}

fn utc(text: &str) -> Dtu {
    let utc = chrono::DateTime::parse_from_rfc3339(text).expect("invalid").to_utc();
    Dtu::from_timestamp(utc.timestamp(), utc.timestamp_subsec_nanos())
}

#[test]
fn or_yields_the_earlier_and_consumes_only_that_side() {
    let mut or = Or::new(list(&[1, 4]), list(&[2, 3]));
    assert_eq!(or.peek_next(), Some(t(1)));
    assert_eq!(or.next(), Some(t(1)));
    assert_eq!((or.0.pos, or.1.pos), (1, 0));
    assert_eq!(or.next(), Some(t(2)));
    assert_eq!((or.0.pos, or.1.pos), (1, 1));
    assert_eq!(or.next(), Some(t(3)));
    assert_eq!(or.next(), Some(t(4)));
    assert_eq!(or.next(), None);
    assert_eq!((or.0.pos, or.1.pos), (2, 2));
}

#[test]
fn or_prefers_its_first_side_on_a_tie() {
    let mut or = Or::new(list(&[5]), list(&[5]));
    assert_eq!(or.next(), Some(t(5)));
    assert_eq!((or.0.pos, or.1.pos), (1, 0));
    assert_eq!(or.next(), Some(t(5)));
    assert_eq!((or.0.pos, or.1.pos), (1, 1));
    assert_eq!(or.next(), None);
}

#[test]
fn never_is_neutral_for_or() {
    let mut left = Never.or(list(&[1, 2]));
    assert_eq!(drain(&mut left, 10), vec![1, 2]);
    let mut right = list(&[1, 2]).or(Never);
    assert_eq!(right.peek_next(), Some(t(1)));
    assert_eq!(drain(&mut right, 10), vec![1, 2]);
    let mut both = Never.or(Never);
    assert_eq!(both.peek_next(), None);
    assert_eq!(both.next(), None);
}

#[test]
fn or_skips_on_both_sides() {
    let mut or = list(&[1, 5, 9]).or(list(&[2, 5, 7]));
    or.forward_to(t(5));
    assert_eq!(drain(&mut or, 10), vec![7, 9]);
}

#[test]
fn then_resumes_its_tail_strictly_after_the_first_side() {
    let mut then = Then::new(list(&[1, 5]), list(&[2, 5, 6, 9]));
    assert_eq!(then.peek_next(), Some(t(1)));
    assert_eq!(then.next(), Some(t(1)));
    assert_eq!(then.tail.pos, 0);
    assert_eq!(then.next(), Some(t(5)));
    assert_eq!(then.tail.pos, 2);
    assert_eq!(then.peek_next(), Some(t(6)));
    assert_eq!(drain(&mut then, 10), vec![6, 9]);
    assert_eq!(then.next(), None);
}

#[test]
fn then_with_an_empty_first_side_is_its_tail() {
    let mut then = Never.and_then(list(&[2, 3]));
    assert_eq!(then.peek_next(), Some(t(2)));
    assert_eq!(drain(&mut then, 10), vec![2, 3]);
}

#[test]
fn then_skips_on_both_sides() {
    let mut then = list(&[1, 4]).and_then(list(&[2, 6, 8]));
    then.forward_to(t(6));
    assert_eq!(drain(&mut then, 10), vec![8]);
}

#[test]
fn after_skips_up_to_its_instant() {
    let mut after = After::new(t(2), list(&[1, 2, 3, 4]));
    assert_eq!(After::after(&after), t(2));
    assert_eq!(after.peek_next(), Some(t(3)));
    assert_eq!(drain(&mut after, 10), vec![3, 4]);
    let mut after = list(&[1, 2, 3, 4]).after(t(0));
    after.forward_to(t(3));
    assert_eq!(drain(&mut after, 10), vec![4]);
}

#[test]
fn before_yields_only_earlier_instants() {
    let mut before = Before::new(t(3), list(&[1, 2, 3, 4]));
    assert_eq!(Before::before(&before), t(3));
    assert_eq!(before.peek_next(), Some(t(1)));
    assert_eq!(before.next(), Some(t(1)));
    assert_eq!(before.next(), Some(t(2)));
    assert_eq!(before.peek_next(), None);
    assert_eq!(before.next(), None);
    assert_eq!(before.next(), None);
    assert_eq!(before.peek_next(), None);
}

#[test]
fn before_an_early_limit_yields_nothing() {
    let mut before = list(&[5, 6]).before(t(5));
    assert_eq!(before.peek_next(), None);
    assert_eq!(before.next(), None);
    let mut before = Period::new_at(span(10), t(0), t(0)).unwrap().before(t(25));
    assert_eq!(drain(&mut before, 10), vec![0, 10, 20]);
}

#[test]
fn throttling_keeps_fires_an_interval_apart() {
    let mut throttled = Throttling::new(list(&[0, 1, 4, 5, 7, 20, 24, 25]), span(5));
    assert_eq!(drain(&mut throttled, 10), vec![0, 5, 20, 25]);
    assert_eq!(throttled.last_call, Some(t(25)));
}

#[test]
fn throttling_reports_the_earliest_allowed_instant() {
    let mut throttled = list(&[0, 1, 7, 30]).throttling(span(5));
    assert_eq!(throttled.peek_next(), Some(t(0)));
    assert_eq!(throttled.next(), Some(t(0)));
    // the inner schedule reports 1, which is not allowed before 5
    assert_eq!(throttled.peek_next(), Some(t(5)));
    assert_eq!(throttled.peek_next(), Some(t(5)));
    assert_eq!(throttled.next(), Some(t(7)));
    assert_eq!(throttled.peek_next(), Some(t(30)));
    assert_eq!(throttled.next(), Some(t(30)));
    assert_eq!(throttled.peek_next(), None);
    assert_eq!(throttled.next(), None);
}

#[test]
fn throttling_by_nothing_or_less_changes_nothing() {
    let mut zero = list(&[1, 1, 2]).throttling(span(0));
    assert_eq!(drain(&mut zero, 10), vec![1, 1, 2]);
    let mut negative = list(&[1, 1, 2]).throttling(span(-5));
    assert_eq!(negative.next(), Some(t(1)));
    assert_eq!(negative.peek_next(), Some(t(1)));
    assert_eq!(drain(&mut negative, 10), vec![1, 2]);
}

#[test]
fn throttling_ends_where_no_instant_is_allowed() {
    let mut throttled = list(&[i128::MAX - 1, i128::MAX]).throttling(span(5));
    assert_eq!(throttled.next(), Some(t(i128::MAX - 1)));
    assert_eq!(throttled.peek_next(), None);
    assert_eq!(throttled.next(), None);
    let mut low = list(&[i128::MIN, i128::MIN + 1]).throttling(span(-5));
    assert_eq!(low.next(), Some(t(i128::MIN)));
    assert_eq!(low.peek_next(), Some(t(i128::MIN + 1)));
    assert_eq!(low.next(), Some(t(i128::MIN + 1)));
}

#[test]
fn throttling_a_period_by_twice_its_period() {
    let period = Period::new_at(span(10), t(0), t(0)).unwrap();
    let mut throttled = period.throttling(span(20));
    assert_eq!(drain(&mut throttled, 4), vec![0, 20, 40, 60]);
    let period = Period::new_at(span(10), t(0), t(0)).unwrap();
    let mut throttled = period.throttling(span(15));
    assert_eq!(drain(&mut throttled, 4), vec![0, 20, 40, 60]);
}

#[test]
fn yields_never_decrease_in_a_composition() {
    let schedule = list(&[3, 9, 9, 40])
        .or(Period::new_at(span(7), t(1), t(0)).unwrap())
        .throttling(span(2))
        .after(t(2))
        .before(t(45));
    let mut schedule = Once::new(t(5)).and_then(schedule);
    let yields = drain(&mut schedule, 100);
    assert_eq!(yields, vec![5, 8, 15, 22, 29, 36, 40, 43]);
    assert!(yields.windows(2).all(|pair| pair[0] <= pair[1]));
}

#[test]
fn peek_is_repeatable_in_a_composition() {
    let mut schedule = list(&[3, 9]).and_then(list(&[1, 20])).or(Once::new(t(4)));
    for _ in 0..4 {
        let peeked = schedule.peek_next();
        assert_eq!(schedule.peek_next(), peeked);
        assert_eq!(schedule.next(), peeked);
    }
    assert_eq!(schedule.peek_next(), None);
}

#[test]
fn cron_fires_as_its_expression_says() {
    let start = utc("2025-01-01T00:00:00Z");
    let mut cron = Cron::utc_from_cron_expr_at("0 30 12 * * *", start).expect("valid");
    assert_eq!(cron.peek_next(), Some(utc("2025-01-01T12:30:00Z")));
    assert_eq!(cron.peek_next(), Some(utc("2025-01-01T12:30:00Z")));
    assert_eq!(cron.next(), Some(utc("2025-01-01T12:30:00Z")));
    assert_eq!(cron.next(), Some(utc("2025-01-02T12:30:00Z")));
    assert_eq!(cron.cursor, utc("2025-01-02T12:30:00Z"));
}

#[test]
fn cron_looks_strictly_after_its_start() {
    let on_the_fire = utc("2025-01-01T12:30:00Z");
    let mut cron = Cron::utc_from_cron_expr_at("0 30 12 * * *", on_the_fire).expect("valid");
    assert_eq!(cron.next(), Some(utc("2025-01-02T12:30:00Z")));
    let just_before = Dtu::from_nanos(on_the_fire.as_nanos() - 1);
    let mut cron = Cron::utc_from_cron_expr_at("0 30 12 * * *", just_before).expect("valid");
    assert_eq!(cron.next(), Some(on_the_fire));
}

#[test]
fn cron_skips_to_an_instant() {
    let start = utc("2025-01-01T00:00:00Z");
    let mut cron = Cron::utc_from_cron_expr_at("0 0 * * * *", start).expect("valid");
    cron.forward_to(utc("2025-01-01T00:30:00Z"));
    assert_eq!(cron.cursor, start);
    assert_eq!(cron.peek_next(), Some(utc("2025-01-01T01:00:00Z")));
    cron.forward_to(utc("2025-03-01T05:00:00Z"));
    assert_eq!(cron.next(), Some(utc("2025-03-01T06:00:00Z")));
    cron.forward_to(utc("2025-01-01T00:00:00Z"));
    assert_eq!(cron.next(), Some(utc("2025-03-01T07:00:00Z")));
}

#[test]
fn cron_ends_with_its_last_year() {
    let start = utc("2025-01-01T00:00:00Z");
    let mut cron = Cron::utc_from_cron_expr_at("0 0 0 1 1 * 2026", start).expect("valid");
    assert_eq!(cron.next(), Some(utc("2026-01-01T00:00:00Z")));
    assert_eq!(cron.peek_next(), None);
    assert_eq!(cron.next(), None);
    cron.forward_to(utc("2020-01-01T00:00:00Z"));
    assert_eq!(cron.next(), None);
}

#[test]
fn cron_outside_the_years_of_seeds() {
    let far = Dtu::from_nanos(i128::MAX);
    let mut cron = Cron::utc_from_cron_expr_at("0 0 * * * *", far).expect("valid");
    assert_eq!(cron.peek_next(), None);
    assert_eq!(cron.next(), None);
    let early = Dtu::from_nanos(i128::MIN);
    let mut cron = Cron::utc_from_cron_expr_at("0 0 * * * *", early).expect("valid");
    let first = cron.peek_next();
    assert_eq!(cron.next(), first);
    if let Some(first) = first {
        assert!(first > early);
    }
}

#[test]
fn cron_rejects_what_does_not_parse() {
    let start = utc("2025-01-01T00:00:00Z");
    let error = Cron::utc_from_cron_expr_at("every now and again", start).expect_err("invalid");
    assert!(matches!(error, CronError::Expression { reason } if !reason.is_empty()));
    assert!(Cron::utc_from_cron_expr("").is_err());
    assert!(Cron::utc_from_cron_expr("0 0 * * * *").is_ok());
}

#[test]
fn cron_takes_seeds_at_both_ends_of_its_range() {
    let last = Dtu::from_timestamp(8_000_000_000_000, 999_999_999);
    let mut cron = Cron::utc_from_cron_expr_at("0 0 * * * *", last).expect("valid");
    assert_eq!(cron.next(), None);
    let first = Dtu::from_timestamp(-8_000_000_000_000, 0);
    let mut cron = Cron::utc_from_cron_expr_at("0 0 * * * *", first).expect("valid");
    let next = cron.peek_next();
    assert_eq!(cron.next(), next);
    let just_outside = Dtu::from_nanos(first.as_nanos() - 1);
    let mut cron = Cron::utc_from_cron_expr_at("0 0 * * * *", just_outside).expect("valid");
    assert_eq!(cron.next(), next);
}

#[test]
fn a_throttled_first_side_reports_an_instant_that_it_may_not_yield() {
    // the throttled list reports 5 after its fire at 0, and then yields nothing
    let mut throttled = list(&[0, 1]).throttling(span(5));
    assert_eq!(throttled.next(), Some(t(0)));
    assert_eq!(throttled.peek_next(), Some(t(5)));
    assert_eq!(throttled.next(), None);
    // as the first side of a `Then` it leads an `Or` to yield out of order
    let then = list(&[0, 1]).throttling(span(5)).and_then(list(&[2, 3]));
    let mut or = then.or(list(&[4]));
    assert_eq!(drain(&mut or, 10), vec![0, 4, 5, 3]);
    // as a side of the `Or` itself it does not
    let mut or = list(&[0, 1]).throttling(span(5)).or(list(&[2, 3, 4]));
    assert_eq!(drain(&mut or, 10), vec![0, 2, 3, 4, 5]);
}

#[test]
fn cron_reads_its_expression_in_its_time_zone() {
    let start = utc("2025-01-01T00:00:00Z");
    // noon, eight hours west of UTC
    let mut west = Cron::from_cron_expr_at("0 0 12 * * *", -8 * 3_600, start).expect("valid");
    assert_eq!(west.next(), Some(utc("2025-01-01T20:00:00Z")));
    assert_eq!(west.next(), Some(utc("2025-01-02T20:00:00Z")));
    // noon, five and a half hours east of UTC
    let mut east = Cron::from_cron_expr_at("0 0 12 * * *", 19_800, start).expect("valid");
    assert_eq!(east.next(), Some(utc("2025-01-01T06:30:00Z")));
    let mut utc_zone = Cron::from_cron_expr_at("0 0 12 * * *", 0, start).expect("valid");
    assert_eq!(utc_zone.next(), Some(utc("2025-01-01T12:00:00Z")));
}

#[test]
fn cron_rejects_a_time_zone_a_day_from_utc() {
    let start = utc("2025-01-01T00:00:00Z");
    for offset in [86_400, -86_400, i32::MAX, i32::MIN] {
        let error = Cron::from_cron_expr_at("0 0 12 * * *", offset, start).expect_err("too far");
        assert!(matches!(error, CronError::Offset));
    }
    assert!(Cron::from_cron_expr_at("0 0 12 * * *", 86_399, start).is_ok());
    assert!(Cron::from_cron_expr_at("0 0 12 * * *", -86_399, start).is_ok());
    let error = Cron::from_cron_expr_at("nonsense", 86_400, start).expect_err("too far");
    assert!(matches!(error, CronError::Offset));
    let mut far_east = Cron::from_cron_expr_at("0 0 12 * * *", 86_399, start).expect("valid");
    assert_eq!(far_east.next(), Some(utc("2025-01-01T12:00:01Z")));
}

#[test]
fn schedules_tell_whether_they_are_well_formed() {
    assert!(Never.is_wf());
    assert!(Once::new(t(1)).is_wf());
    assert!(list(&[]).is_wf());
    assert!(list(&[1, 1, 2]).is_wf());
    let mut unsorted = list(&[1, 2, 3]);
    unsorted.items.swap(1, 2);
    assert!(!unsorted.is_wf());
    let mut beyond = list(&[1, 2]);
    beyond.pos = 3;
    assert!(!beyond.is_wf());
    beyond.pos = 2;
    assert!(beyond.is_wf());
    let mut period = Period::new_at(span(10), t(0), t(0)).unwrap();
    assert!(period.is_wf());
    period.period = span(0);
    assert!(!period.is_wf());
    let mut cron = Cron::from_cron_expr_at("0 0 * * * *", 3_600, t(0)).unwrap();
    assert!(cron.is_wf());
    cron.offset = 86_400;
    assert!(!cron.is_wf());
    cron.offset = -86_400;
    assert!(!cron.is_wf());
    assert!(list(&[1]).or(list(&[2])).and_then(list(&[3])).before(t(9)).throttling(span(1)).is_wf());
    assert!(!list(&[1]).or(period).is_wf());
    assert!(!period.or(list(&[1])).is_wf());
    assert!(!list(&[1]).and_then(period).is_wf());
    assert!(!period.and_then(list(&[1])).is_wf());
    assert!(!period.before(t(5)).is_wf());
    assert!(!period.throttling(span(1)).is_wf());
    assert!(!(After { after: t(0), inner: period }).is_wf());
}
