use tsuki_scheduler::schedule::{
    Cron, DynSchedule, Iter, Once, Period, Schedule, ScheduleDynBuilder, ScheduleExt,
};
use tsuki_scheduler::{Dtu, Local, RunTask, Scheduler, Task, TaskRun, TaskUid, TimeDelta};

fn t(n: i128) -> Dtu {
    Dtu::from_nanos(n)
}

fn span(n: i128) -> TimeDelta {
    TimeDelta { nanos: n }
}

fn list(items: &[i128]) -> Iter {
    Iter::new(items.iter().map(|n| t(*n)).collect())
}

fn dyn_list(items: &[i128]) -> DynSchedule {
    DynSchedule::Iter(list(items))
}

fn drain<S: Schedule>(schedule: &mut S, limit: usize) -> Vec<i128> {
    let mut yields = Vec::new();
    while yields.len() < limit {
        match schedule.next() {
            Some(y) => yields.push(y.as_nanos()),
            None => break,
        }
    }
    yields
}

#[test]
fn a_default_builder_builds_never() {
    let mut never = ScheduleDynBuilder::default().build();
    assert!(matches!(never, DynSchedule::Never));
    assert_eq!(never.peek_next(), None);
    assert_eq!(never.next(), None);
    never.forward_to(t(1));
    assert_eq!(never.next(), None);
}

#[test]
fn dynamic_primitives_behave_as_the_primitives() {
    let mut once = DynSchedule::Once(Once::new(t(4)));
    assert_eq!(once.peek_next(), Some(t(4)));
    assert_eq!(drain(&mut once, 10), vec![4]);
    let mut period = DynSchedule::Period(Period::new_at(span(10), t(0), t(0)).unwrap());
    period.forward_to(t(25));
    assert_eq!(drain(&mut period, 3), vec![30, 40, 50]);
    let mut iter = dyn_list(&[1, 2, 3]);
    iter.forward_to(t(1));
    assert_eq!(drain(&mut iter, 10), vec![2, 3]);
    let start = Dtu::from_timestamp(1_735_689_600, 0);
    let mut cron = DynSchedule::Cron(Cron::utc_from_cron_expr_at("0 0 * * * *", start).unwrap());
    assert_eq!(cron.next(), Some(Dtu::from_timestamp(1_735_693_200, 0)));
}

#[test]
fn a_built_schedule_behaves_as_the_composition() {
    let built = ScheduleDynBuilder::new(dyn_list(&[3, 9, 9, 40]))
        .or(DynSchedule::Period(Period::new_at(span(7), t(1), t(0)).unwrap()))
        .throttling(span(2))
        .after(t(2))
        .before(t(45))
        .build();
    let mut built = DynSchedule::Once(Once::new(t(5))).dyn_builder().and_then(built).build();
    let composed = list(&[3, 9, 9, 40])
        .or(Period::new_at(span(7), t(1), t(0)).unwrap())
        .throttling(span(2))
        .after(t(2))
        .before(t(45));
    let mut composed = Once::new(t(5)).and_then(composed);
    for _ in 0..10 {
        assert_eq!(built.peek_next(), composed.peek_next());
        assert_eq!(built.next(), composed.next());
    }
    assert_eq!(built.next(), None);
}

#[test]
fn dynamic_or_prefers_its_first_side_on_a_tie() {
    let mut or = ScheduleDynBuilder::new(dyn_list(&[5])).or(dyn_list(&[5, 6])).build();
    assert_eq!(or.next(), Some(t(5)));
    match &or {
        DynSchedule::Or(first, second) => {
            assert!(matches!(**first, DynSchedule::Iter(ref iter) if iter.pos == 1));
            assert!(matches!(**second, DynSchedule::Iter(ref iter) if iter.pos == 0));
        }
        _ => panic!("an or stays an or"),
    }
    assert_eq!(drain(&mut or, 10), vec![5, 6]);
}

#[test]
fn dynamic_throttling_keeps_fires_an_interval_apart() {
    let mut throttled = ScheduleDynBuilder::new(dyn_list(&[0, 1, 4, 5, 7, 20, 24, 25]))
        .throttling(span(5))
        .build();
    assert_eq!(throttled.next(), Some(t(0)));
    assert_eq!(throttled.peek_next(), Some(t(5)));
    assert_eq!(drain(&mut throttled, 10), vec![5, 20, 25]);
    let mut nested = ScheduleDynBuilder::new(dyn_list(&[0, 1, 2, 3, 4, 5, 6, 7, 8, 9]))
        .throttling(span(2))
        .throttling(span(3))
        .build();
    assert_eq!(drain(&mut nested, 10), vec![0, 3, 6, 9]);
}

#[test]
fn a_builder_maps_what_it_has_built() {
    let mut mapped = ScheduleDynBuilder::new(dyn_list(&[1, 2]))
        .map(|built| DynSchedule::Before(t(2), Box::new(built)))
        .build();
    assert_eq!(drain(&mut mapped, 10), vec![1]);
}

struct Noted;

impl RunTask<Local> for Noted {
    fn run(&self, _runtime: &mut Local, _task_run: &TaskRun) {}
}

#[test]
fn one_scheduler_holds_schedules_of_different_shapes() {
    let mut scheduler: Scheduler<Local, DynSchedule, Noted> = Scheduler::new(Local::new());
    scheduler.add_task(TaskUid::new(1), Task::new(DynSchedule::Once(Once::new(t(3))), Noted));
    scheduler.add_task(TaskUid::new(2), Task::new(dyn_list(&[1, 4]), Noted));
    scheduler.add_task(
        TaskUid::new(3),
        Task::new(DynSchedule::Period(Period::new_at(span(2), t(2), t(0)).unwrap()), Noted),
    );
    scheduler.add_task(TaskUid::new(4), Task::new(DynSchedule::Never, Noted));
    let fired: Vec<(u128, i128)> = scheduler
        .execute(t(4))
        .iter()
        .map(|run| (run.key().into_inner(), run.time().as_nanos()))
        .collect();
    assert_eq!(fired, vec![(2, 1), (3, 2), (1, 3), (2, 4), (3, 4)]);
    assert_eq!(scheduler.task_map.len(), 1);
}

#[test]
fn a_dynamic_schedule_tells_whether_it_is_well_formed() {
    let built = ScheduleDynBuilder::new(dyn_list(&[1, 2]))
        .or(DynSchedule::Once(Once::new(t(4))))
        .throttling(span(2))
        .before(t(9))
        .build();
    assert!(built.is_wf());
    assert!(DynSchedule::Never.is_wf());
    let mut unsorted = list(&[1, 2]);
    unsorted.items.swap(0, 1);
    let broken = ScheduleDynBuilder::new(dyn_list(&[1]))
        .and_then(DynSchedule::Iter(unsorted))
        .throttling(span(2))
        .build();
    assert!(!broken.is_wf());
    let wrapped = DynSchedule::After(t(0), Box::new(DynSchedule::Before(t(9), Box::new(broken))));
    assert!(!wrapped.is_wf());
}
