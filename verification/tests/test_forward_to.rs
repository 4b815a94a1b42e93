use tsuki_scheduler::schedule::{Period, Schedule};
use tsuki_scheduler::{now, TimeDelta};

#[test]
fn test_forward_to() {
    let now = now();
    let mut period = Period::new(TimeDelta::days(10), now).expect("valid period");
    period.forward_to(now.checked_add(TimeDelta::days(7)).unwrap());
    assert_eq!(
        period.get_next(),
        Some(now.checked_add(TimeDelta::days(10)).unwrap())
    );

    let mut period =
        Period::new(TimeDelta::new(30, 30_123_456).unwrap(), now).expect("valid period");
    period.forward_to(now.checked_add(TimeDelta::days(1)).unwrap());
    let forwarded = period.get_next().unwrap().checked_since(now).unwrap();
    let time_forwarded = forwarded.as_nanos() / TimeDelta::hours(1).as_nanos();
    assert!((23..=25).contains(&time_forwarded));
}

#[test]
fn test_forward() {
    let now = now();
    let mut period = Period::new(TimeDelta::days(10), now).expect("valid period");
    period.forward_to(now.checked_add(TimeDelta::days(7)).unwrap());
    assert_eq!(
        period.get_next(),
        Some(now.checked_add(TimeDelta::days(10)).unwrap())
    );

    let mut period =
        Period::new(TimeDelta::new(30, 30_123_456).unwrap(), now).expect("valid period");
    period.forward_to(now.checked_add(TimeDelta::days(1)).unwrap());
    println!("now:{now:?}, {:?}", period);
    let next = period.get_next().unwrap();
    assert!(next > now.checked_add(TimeDelta::days(1)).unwrap());
    let step = TimeDelta::new(30, 30_123_456).unwrap().as_nanos();
    assert_eq!((next.as_nanos() - now.as_nanos()) % step, 0);
}
