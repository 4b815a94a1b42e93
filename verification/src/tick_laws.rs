use vstd::prelude::*;

use crate::schedule::{lemma_nth_state_splits, nth_state, nth_yield, Schedule};
use crate::scheduler::{
    enqueue, in_time_order, lemma_enqueue, lemma_slot_after, lemma_tick, lemma_without_fires_of,
    schedules_wf, slot_after, stepped, tick, without_fires_of,
};
use crate::task::{Task, TaskRun, TaskUid};
use crate::time::Dtu;

verus! {

/// Lazy-deletion safety: a tick dispatches nothing for an identifier that is
/// not bound, however many fires are queued for it.
pub proof fn lemma_unbound_never_fires<S: Schedule, F>(
    pending: Seq<TaskRun>,
    tasks: Map<u128, Task<S, F>>,
    now: int,
    fuel: nat,
    key: TaskUid,
)
    requires
        in_time_order(pending),
        schedules_wf(tasks),
        !tasks.contains_key(key.0),
    ensures
        forall|i: int|
            0 <= i < tick(pending, tasks, now, fuel).fired.len() ==> (#[trigger] tick(
                pending,
                tasks,
                now,
                fuel,
            ).fired[i]).key != key,
        !tick(pending, tasks, now, fuel).tasks.contains_key(key.0),
{
    lemma_tick(pending, tasks, now, fuel);
}

/// Every queued fire of a bound task is one that the task's schedule, which
/// is orderly, will not go back behind: the schedule reports nothing earlier.
pub open spec fn steady<S: Schedule, F>(pending: Seq<TaskRun>, tasks: Map<u128, Task<S, F>>) -> bool {
    forall|i: int|
        0 <= i < pending.len() && tasks.contains_key((#[trigger] pending[i]).key.0) ==> {
            &&& tasks[pending[i].key.0].schedule.orderly()
            &&& tasks[pending[i].key.0].schedule.not_before(pending[i].time@)
        }
}

/// Whether the fires of `fired` come in the order of their instants, none
/// before `floor`.
pub open spec fn fired_in_order(fired: Seq<TaskRun>, floor: int) -> bool {
    &&& forall|i: int| 0 <= i < fired.len() ==> floor <= (#[trigger] fired[i]).time@
    &&& forall|i: int, j: int| 0 <= i <= j < fired.len() ==> fired[i].time@ <= fired[j].time@
}

/// Ordering: from a steady state a tick dispatches in the order of the
/// instants, and leaves a steady state.
pub proof fn lemma_tick_in_order<S: Schedule, F>(
    pending: Seq<TaskRun>,
    tasks: Map<u128, Task<S, F>>,
    now: int,
    fuel: nat,
)
    requires
        in_time_order(pending),
        schedules_wf(tasks),
        steady(pending, tasks),
    ensures
        steady(tick(pending, tasks, now, fuel).pending, tick(pending, tasks, now, fuel).tasks),
        pending.len() > 0 ==> fired_in_order(
            tick(pending, tasks, now, fuel).fired,
            pending[0].time@,
        ),
        pending.len() == 0 ==> tick(pending, tasks, now, fuel).fired.len() == 0,
    decreases fuel,
{
    if fuel == 0 || pending.len() == 0 || pending[0].time@ > now {
    } else {
        let top = pending[0];
        let rest = pending.drop_first();
        let id = top.key.0;
        let less = (fuel - 1) as nat;
        assert forall|i: int, j: int| 0 <= i <= j < rest.len() implies rest[i].time@
            <= rest[j].time@ by {
            assert(pending[i + 1].time@ <= pending[j + 1].time@);
        }
        assert forall|i: int| 0 <= i < rest.len() implies top.time@ <= (#[trigger] rest[i]).time@ by {
            assert(pending[0].time@ <= pending[i + 1].time@);
        }
        if !tasks.contains_key(id) {
            assert(steady(rest, tasks)) by {
                assert forall|i: int|
                    0 <= i < rest.len() && tasks.contains_key((#[trigger] rest[i]).key.0) implies {
                    &&& tasks[rest[i].key.0].schedule.orderly()
                    &&& tasks[rest[i].key.0].schedule.not_before(rest[i].time@)
                } by {
                    assert(rest[i] == pending[i + 1]);
                }
            }
            lemma_tick_in_order(rest, tasks, now, less);
            let after = tick(rest, tasks, now, less);
            if rest.len() > 0 {
                assert(fired_in_order(after.fired, top.time@));
            }
        } else {
            let task = tasks[id];
            let s = task.schedule;
            assert(pending[0].key.0 == id);
            assert(s.orderly() && s.not_before(top.time@));
            s.lemma_step(top.time);
            s.lemma_floor_holds(top.time@, top.time);
            match s.yielded() {
                Some(y) => {
                    let run = TaskRun { key: top.key, time: y };
                    let pending2 = enqueue(rest, run);
                    let tasks2 = tasks.insert(id, stepped(task));
                    let at = slot_after(rest, y@, 0);
                    lemma_enqueue(rest, run);
                    lemma_slot_after(rest, y@, 0);
                    s.lemma_floor_rises(y@, top.time);
                    assert(schedules_wf(tasks2));
                    assert(steady(pending2, tasks2)) by {
                        assert forall|i: int|
                            0 <= i < pending2.len() && tasks2.contains_key(
                                (#[trigger] pending2[i]).key.0,
                            ) implies {
                            &&& tasks2[pending2[i].key.0].schedule.orderly()
                            &&& tasks2[pending2[i].key.0].schedule.not_before(pending2[i].time@)
                        } by {
                            if i != at {
                                let k = if i < at { i } else { i - 1 };
                                assert(pending2[i] == rest[k]);
                                assert(rest[k] == pending[k + 1]);
                                if rest[k].key.0 == id {
                                    s.lemma_floor_holds(rest[k].time@, top.time);
                                }
                            }
                        }
                    }
                    assert(top.time@ <= pending2[0].time@) by {
                        if at != 0 {
                            assert(pending2[0] == rest[0]);
                        }
                    }
                    lemma_tick_in_order(pending2, tasks2, now, less);
                    let after = tick(pending2, tasks2, now, less);
                    let whole = tick(pending, tasks, now, fuel);
                    assert(whole.fired == seq![top] + after.fired);
                    assert(fired_in_order(after.fired, pending2[0].time@));
                    assert(fired_in_order(whole.fired, top.time@)) by {
                        assert forall|i: int| 0 <= i < whole.fired.len() implies top.time@ <= (
                        #[trigger] whole.fired[i]).time@ by {
                            if i > 0 {
                                assert(whole.fired[i] == after.fired[i - 1]);
                            }
                        }
                        assert forall|i: int, j: int|
                            0 <= i <= j < whole.fired.len() implies whole.fired[i].time@
                            <= whole.fired[j].time@ by {
                            if j > 0 {
                                assert(whole.fired[j] == after.fired[j - 1]);
                                if i > 0 {
                                    assert(whole.fired[i] == after.fired[i - 1]);
                                }
                            }
                        }
                    }
                },
                None => {
                    let tasks2 = tasks.remove(id);
                    assert(schedules_wf(tasks2));
                    assert(steady(rest, tasks2)) by {
                        assert forall|i: int|
                            0 <= i < rest.len() && tasks2.contains_key(
                                (#[trigger] rest[i]).key.0,
                            ) implies {
                            &&& tasks2[rest[i].key.0].schedule.orderly()
                            &&& tasks2[rest[i].key.0].schedule.not_before(rest[i].time@)
                        } by {
                            assert(rest[i] == pending[i + 1]);
                        }
                    }
                    lemma_tick_in_order(rest, tasks2, now, less);
                    let after = tick(rest, tasks2, now, less);
                    let whole = tick(pending, tasks, now, fuel);
                    assert(whole.fired == seq![top] + after.fired);
                    assert(fired_in_order(whole.fired, top.time@)) by {
                        assert forall|i: int| 0 <= i < whole.fired.len() implies top.time@ <= (
                        #[trigger] whole.fired[i]).time@ by {
                            if i > 0 {
                                assert(whole.fired[i] == after.fired[i - 1]);
                            }
                        }
                        assert forall|i: int, j: int|
                            0 <= i <= j < whole.fired.len() implies whole.fired[i].time@
                            <= whole.fired[j].time@ by {
                            if j > 0 {
                                assert(whole.fired[j] == after.fired[j - 1]);
                                if i > 0 {
                                    assert(whole.fired[i] == after.fired[i - 1]);
                                }
                            }
                        }
                    }
                },
            }
        }
    }
}

/// Binding a task with an orderly schedule keeps a steady state steady: the
/// fires that were queued for its identifier leave the queue, and its own
/// first fire comes in.
pub proof fn lemma_add_keeps_steady<S: Schedule, F>(
    pending: Seq<TaskRun>,
    tasks: Map<u128, Task<S, F>>,
    key: TaskUid,
    task: Task<S, F>,
)
    requires
        in_time_order(pending),
        steady(pending, tasks),
        task.schedule.wf(),
        task.schedule.orderly(),
        task.schedule.yielded() is Some,
    ensures
        steady(
            enqueue(
                without_fires_of(pending, key),
                TaskRun { key, time: task.schedule.yielded().unwrap() },
            ),
            tasks.insert(key.0, stepped(task)),
        ),
{
    let y = task.schedule.yielded().unwrap();
    let run = TaskRun { key, time: y };
    let cleared = without_fires_of(pending, key);
    let at = slot_after(cleared, y@, 0);
    let pending2 = enqueue(cleared, run);
    let tasks2 = tasks.insert(key.0, stepped(task));
    lemma_without_fires_of(pending, key);
    lemma_slot_after(cleared, y@, 0);
    task.schedule.lemma_step(y);
    task.schedule.lemma_floor_rises(y@, y);
    assert forall|i: int|
        0 <= i < pending2.len() && tasks2.contains_key((#[trigger] pending2[i]).key.0) implies {
        &&& tasks2[pending2[i].key.0].schedule.orderly()
        &&& tasks2[pending2[i].key.0].schedule.not_before(pending2[i].time@)
    } by {
        if i != at {
            let k = if i < at { i } else { i - 1 };
            assert(pending2[i] == cleared[k]);
            assert(cleared[k].key != key);
            assert(pending.contains(cleared[k]));
            let j = choose|j: int| 0 <= j < pending.len() && pending[j] == cleared[k];
            assert(tasks.contains_key(pending[j].key.0));
        }
    }
}

/// Unbinding a task keeps a steady state steady.
pub proof fn lemma_delete_keeps_steady<S: Schedule, F>(
    pending: Seq<TaskRun>,
    tasks: Map<u128, Task<S, F>>,
    key: TaskUid,
)
    requires
        steady(pending, tasks),
    ensures
        steady(pending, tasks.remove(key.0)),
{
}

/// The fires of the task `key` at the first `n` instants that `s` yields.
pub open spec fn fires_of<S: Schedule>(key: TaskUid, s: S, n: nat) -> Seq<TaskRun> {
    Seq::new(n, |i: int| TaskRun { key, time: nth_yield(s, i as nat).unwrap() })
}

/// Exactly-once dispatch: where a schedule yields `n` instants and then
/// nothing, all of them due, a tick on the scheduler that holds its task
/// alone dispatches the task once for each of these instants, in their order,
/// and drops it.
///
/// `task` is the task as it was handed to `add_task`; the state that the tick
/// starts from is the one that `add_task` leaves in an empty scheduler.
pub proof fn lemma_dispatch_exactly_once<S: Schedule, F>(
    key: TaskUid,
    task: Task<S, F>,
    n: nat,
    now: int,
    fuel: nat,
)
    requires
        task.schedule.wf(),
        n >= 1,
        fuel >= n,
        forall|i: nat| i < n ==> (#[trigger] nth_yield(task.schedule, i) matches Some(y) && y@ <= now),
        nth_yield(task.schedule, n) is None,
    ensures
        ({
            let first = TaskRun { key, time: task.schedule.yielded().unwrap() };
            let done = tick(
                enqueue(without_fires_of(Seq::<TaskRun>::empty(), key), first),
                Map::<u128, Task<S, F>>::empty().insert(key.0, stepped(task)),
                now,
                fuel,
            );
            &&& done.fired == fires_of(key, task.schedule, n)
            &&& done.pending.len() == 0
            &&& !done.tasks.contains_key(key.0)
        }),
{
    let s = task.schedule;
    assert(nth_yield(s, 0) is Some);
    assert(nth_state(s, 0) == s);
    let y0 = s.yielded().unwrap();
    let first = TaskRun { key, time: y0 };
    assert(without_fires_of(Seq::<TaskRun>::empty(), key) =~= Seq::<TaskRun>::empty()) by {
        reveal(Seq::filter);
    }
    assert(enqueue(Seq::<TaskRun>::empty(), first) =~= seq![first]);
    assert(nth_state(s, 1) == nth_state(s, 0).advanced());
    lemma_drain(key, task, stepped(task), 0, n, now, fuel);
}

/// The induction behind `lemma_dispatch_exactly_once`: the state in which the
/// fire for the instant of index `i` is queued alone, and the schedule has
/// been asked `i + 1` times.
proof fn lemma_drain<S: Schedule, F>(
    key: TaskUid,
    task: Task<S, F>,
    bound: Task<S, F>,
    i: nat,
    n: nat,
    now: int,
    fuel: nat,
)
    requires
        task.schedule.wf(),
        i < n,
        fuel >= n - i,
        forall|j: nat| j < n ==> (#[trigger] nth_yield(task.schedule, j) matches Some(y) && y@ <= now),
        nth_yield(task.schedule, n) is None,
        bound.schedule == nth_state(task.schedule, i + 1),
    ensures
        ({
            let run = TaskRun { key, time: nth_yield(task.schedule, i).unwrap() };
            let done = tick(
                seq![run],
                Map::<u128, Task<S, F>>::empty().insert(key.0, bound),
                now,
                fuel,
            );
            &&& done.fired == fires_of(key, task.schedule, n).skip(i as int)
            &&& done.pending.len() == 0
            &&& !done.tasks.contains_key(key.0)
        }),
    decreases n - i,
{
    let s = task.schedule;
    let run = TaskRun { key, time: nth_yield(s, i).unwrap() };
    let pending = seq![run];
    let tasks = Map::<u128, Task<S, F>>::empty().insert(key.0, bound);
    let less = (fuel - 1) as nat;
    let all = fires_of(key, s, n);
    assert(nth_yield(s, i) is Some);
    assert(pending[0] == run);
    assert(pending.drop_first() =~= Seq::<TaskRun>::empty());
    assert(tasks[key.0] == bound);
    assert(bound.schedule.yielded() == nth_yield(s, i + 1));
    if i + 1 < n {
        assert(nth_yield(s, i + 1) is Some);
        let y = nth_yield(s, i + 1).unwrap();
        let next_run = TaskRun { key, time: y };
        assert(enqueue(Seq::<TaskRun>::empty(), next_run) =~= seq![next_run]);
        assert(tasks.insert(key.0, stepped(bound)) =~= Map::<u128, Task<S, F>>::empty().insert(
            key.0,
            stepped(bound),
        ));
        assert(stepped(bound).schedule == nth_state(s, i + 2));
        lemma_drain(key, task, stepped(bound), i + 1, n, now, less);
        let after = tick(
            seq![next_run],
            Map::<u128, Task<S, F>>::empty().insert(key.0, stepped(bound)),
            now,
            less,
        );
        let done = tick(pending, tasks, now, fuel);
        assert(done.fired == seq![run] + after.fired);
        assert(seq![run] + all.skip(i as int + 1) =~= all.skip(i as int));
    } else {
        assert(nth_yield(s, i + 1) is None);
        assert(tasks.remove(key.0) =~= Map::<u128, Task<S, F>>::empty());
        let after = tick(Seq::<TaskRun>::empty(), tasks.remove(key.0), now, less);
        assert(after.fired =~= Seq::<TaskRun>::empty());
        let done = tick(pending, tasks, now, fuel);
        assert(done.fired == seq![run] + after.fired);
        assert(seq![run] + Seq::<TaskRun>::empty() =~= all.skip(i as int));
    }
}

} // verus!
