use std::collections::HashMap;
use vstd::std_specs::iter::IteratorSpec;
use vstd::prelude::*;

use crate::handle_manager::HandleManager;
use crate::runtime::{RunTask, Runtime};
use crate::schedule::Schedule;
use crate::task::{Task, TaskRun, TaskUid};
use crate::tick_laws::{
    fired_in_order, lemma_add_keeps_steady, lemma_delete_keeps_steady, lemma_tick_in_order, steady,
};
use crate::time::{now, Dtu};

verus! {

/// Whether the fire-records of `pending` stand in the order of their instants.
pub open spec fn in_time_order(pending: Seq<TaskRun>) -> bool {
    forall|i: int, j: int| 0 <= i <= j < pending.len() ==> pending[i].time@ <= pending[j].time@
}

/// The first position from `from` on whose record is to run after `t`, or the
/// length of `pending` when there is none.
pub open spec fn slot_after(pending: Seq<TaskRun>, t: int, from: int) -> int
    decreases pending.len() - from,
{
    if 0 <= from < pending.len() && pending[from].time@ <= t {
        slot_after(pending, t, from + 1)
    } else {
        from
    }
}

/// `pending` with `run` put in: behind every record that is to run at the
/// same instant or earlier, before every later one.
pub open spec fn enqueue(pending: Seq<TaskRun>, run: TaskRun) -> Seq<TaskRun> {
    pending.insert(slot_after(pending, run.time@, 0), run)
}

/// `slot_after` stays within the queue; the records before it are to run at
/// `t` or earlier, and the one at it after `t`.
pub proof fn lemma_slot_after(pending: Seq<TaskRun>, t: int, from: int)
    requires
        0 <= from <= pending.len(),
    ensures
        from <= slot_after(pending, t, from) <= pending.len(),
        forall|k: int| from <= k < slot_after(pending, t, from) ==> pending[k].time@ <= t,
        slot_after(pending, t, from) < pending.len() ==> pending[slot_after(pending, t, from)].time@
            > t,
    decreases pending.len() - from,
{
    if from < pending.len() && pending[from].time@ <= t {
        lemma_slot_after(pending, t, from + 1);
    }
}

/// Putting a record into a queue in time order leaves it in time order, and
/// adds that record and no other.
pub proof fn lemma_enqueue(pending: Seq<TaskRun>, run: TaskRun)
    requires
        in_time_order(pending),
    ensures
        in_time_order(enqueue(pending, run)),
        enqueue(pending, run).to_multiset() == pending.to_multiset().insert(run),
        enqueue(pending, run).len() == pending.len() + 1,
{
    let at = slot_after(pending, run.time@, 0);
    lemma_slot_after(pending, run.time@, 0);
    vstd::seq_lib::to_multiset_insert(pending, at, run);
    let grown = pending.insert(at, run);
    assert forall|a: int, b: int| 0 <= a <= b < grown.len() implies grown[a].time@
        <= grown[b].time@ by {
        let pa = if a < at { a } else { a - 1 };
        let pb = if b < at { b } else { b - 1 };
        if a != at && b != at {
            assert(pending[pa].time@ <= pending[pb].time@);
        } else if a == at && b != at {
            assert(pending[at].time@ <= pending[pb].time@);
        }
    }
}

/// Whether a fire-record is not one of the task `key`.
pub open spec fn not_of(key: TaskUid) -> spec_fn(TaskRun) -> bool {
    |run: TaskRun| run.key != key
}

/// `pending` without the fires of the task `key`, the others in their order.
pub open spec fn without_fires_of(pending: Seq<TaskRun>, key: TaskUid) -> Seq<TaskRun> {
    pending.filter(not_of(key))
}

/// Dropping the fires of a task leaves a queue in time order in time order.
/// What is left are records of the queue, none of them of that task.
pub proof fn lemma_without_fires_of(pending: Seq<TaskRun>, key: TaskUid)
    requires
        in_time_order(pending),
    ensures
        in_time_order(without_fires_of(pending, key)),
        forall|i: int|
            0 <= i < without_fires_of(pending, key).len() ==> {
                &&& (#[trigger] without_fires_of(pending, key)[i]).key != key
                &&& pending.contains(without_fires_of(pending, key)[i])
            },
        forall|j: int|
            0 <= j < pending.len() && (#[trigger] pending[j]).key != key ==> without_fires_of(
                pending,
                key,
            ).contains(pending[j]),
    decreases pending.len(),
{
    reveal(Seq::filter);
    if pending.len() > 0 {
        let init = pending.drop_last();
        let last = pending.last();
        assert forall|i: int, j: int| 0 <= i <= j < init.len() implies init[i].time@
            <= init[j].time@ by {
            assert(pending[i].time@ <= pending[j].time@);
        }
        lemma_without_fires_of(init, key);
        let kept = without_fires_of(init, key);
        let all = without_fires_of(pending, key);
        assert(all == if last.key != key {
            kept.push(last)
        } else {
            kept
        });
        assert forall|i: int| 0 <= i < kept.len() implies (#[trigger] kept[i]).time@
            <= last.time@ && pending.contains(kept[i]) by {
            assert(init.contains(kept[i]));
            let j = choose|j: int| 0 <= j < init.len() && init[j] == kept[i];
            assert(pending[j] == kept[i]);
            assert(pending[j].time@ <= pending[pending.len() - 1].time@);
        }
        assert forall|i: int| 0 <= i < all.len() implies {
            &&& (#[trigger] all[i]).key != key
            &&& pending.contains(all[i])
        } by {
            if i < kept.len() {
                assert(all[i] == kept[i]);
            } else {
                assert(all[i] == pending[pending.len() - 1]);
            }
        }
        assert forall|j: int| 0 <= j < pending.len() && (#[trigger] pending[j]).key
            != key implies all.contains(pending[j]) by {
            if j < init.len() {
                assert(init[j] == pending[j]);
                assert(kept.contains(init[j]));
                let i = choose|i: int| 0 <= i < kept.len() && kept[i] == init[j];
                assert(all[i] == pending[j]);
            } else {
                assert(all[all.len() - 1] == pending[j]);
            }
        }
    }
}

/// Whether every fire of the task `key` in `pending` is one at `time`.
pub open spec fn only_fire_of(pending: Seq<TaskRun>, key: TaskUid, time: Dtu) -> bool {
    forall|i: int| 0 <= i < pending.len() && (#[trigger] pending[i]).key == key ==> pending[i].time
        == time
}

/// The state that a tick works on, and the fires that it has dispatched.
pub struct Tick<S, F> {
    pub pending: Seq<TaskRun>,
    pub tasks: Map<u128, Task<S, F>>,
    pub fired: Seq<TaskRun>,
}

/// `task` after its schedule has yielded once more.
pub open spec fn stepped<S: Schedule, F>(task: Task<S, F>) -> Task<S, F> {
    Task { schedule: task.schedule.advanced(), run: task.run }
}

/// The tick algorithm, for at most `fuel` records taken off the queue.
///
/// While the first record of the queue is due at `now`, it is taken off. If
/// its task is no longer bound, nothing else happens. Otherwise the record is
/// dispatched, and the task's schedule is asked for its next instant: with
/// one, the task is put back into the queue for that instant; without, the
/// task is dropped.
pub open spec fn tick<S: Schedule, F>(
    pending: Seq<TaskRun>,
    tasks: Map<u128, Task<S, F>>,
    now: int,
    fuel: nat,
) -> Tick<S, F>
    decreases fuel,
{
    if fuel == 0 || pending.len() == 0 || pending[0].time@ > now {
        Tick { pending, tasks, fired: Seq::empty() }
    } else {
        let top = pending[0];
        let rest = pending.drop_first();
        let id = top.key.0;
        if !tasks.contains_key(id) {
            tick(rest, tasks, now, (fuel - 1) as nat)
        } else {
            let task = tasks[id];
            let after = match task.schedule.yielded() {
                Some(y) => tick(
                    enqueue(rest, TaskRun { key: top.key, time: y }),
                    tasks.insert(id, stepped(task)),
                    now,
                    (fuel - 1) as nat,
                ),
                None => tick(rest, tasks.remove(id), now, (fuel - 1) as nat),
            };
            Tick { pending: after.pending, tasks: after.tasks, fired: seq![top] + after.fired }
        }
    }
}

/// The number of records that `tick` takes off the queue.
pub open spec fn tick_steps<S: Schedule, F>(
    pending: Seq<TaskRun>,
    tasks: Map<u128, Task<S, F>>,
    now: int,
    fuel: nat,
) -> nat
    decreases fuel,
{
    if fuel == 0 || pending.len() == 0 || pending[0].time@ > now {
        0
    } else {
        let top = pending[0];
        let rest = pending.drop_first();
        let id = top.key.0;
        if !tasks.contains_key(id) {
            1 + tick_steps(rest, tasks, now, (fuel - 1) as nat)
        } else {
            let task = tasks[id];
            match task.schedule.yielded() {
                Some(y) => 1 + tick_steps(
                    enqueue(rest, TaskRun { key: top.key, time: y }),
                    tasks.insert(id, stepped(task)),
                    now,
                    (fuel - 1) as nat,
                ),
                None => 1 + tick_steps(rest, tasks.remove(id), now, (fuel - 1) as nat),
            }
        }
    }
}

/// Whether nothing in the queue is due at `now`. The queue is in time order,
/// so its first record decides.
pub open spec fn settled(pending: Seq<TaskRun>, now: int) -> bool {
    pending.len() == 0 || pending[0].time@ > now
}

/// A tick that does not use up its fuel leaves nothing that is due.
pub proof fn lemma_tick_settles<S: Schedule, F>(
    pending: Seq<TaskRun>,
    tasks: Map<u128, Task<S, F>>,
    now: int,
    fuel: nat,
)
    ensures
        tick_steps(pending, tasks, now, fuel) <= fuel,
        tick_steps(pending, tasks, now, fuel) < fuel ==> settled(
            tick(pending, tasks, now, fuel).pending,
            now,
        ),
    decreases fuel,
{
    if fuel == 0 || pending.len() == 0 || pending[0].time@ > now {
    } else {
        let top = pending[0];
        let rest = pending.drop_first();
        let id = top.key.0;
        let less = (fuel - 1) as nat;
        if !tasks.contains_key(id) {
            lemma_tick_settles(rest, tasks, now, less);
        } else {
            let task = tasks[id];
            match task.schedule.yielded() {
                Some(y) => {
                    lemma_tick_settles(
                        enqueue(rest, TaskRun { key: top.key, time: y }),
                        tasks.insert(id, stepped(task)),
                        now,
                        less,
                    );
                },
                None => {
                    lemma_tick_settles(rest, tasks.remove(id), now, less);
                },
            }
        }
    }
}

/// Whether the schedule of every task of `tasks` is well-formed.
pub open spec fn schedules_wf<S: Schedule, F>(tasks: Map<u128, Task<S, F>>) -> bool {
    forall|id: u128| tasks.contains_key(id) ==> (#[trigger] tasks[id]).schedule.wf()
}

/// A tick keeps the queue in time order and the schedules well-formed. What
/// it dispatches was due, belonged to a task that was bound when the tick
/// began, and it binds no task that was not bound before.
pub proof fn lemma_tick<S: Schedule, F>(
    pending: Seq<TaskRun>,
    tasks: Map<u128, Task<S, F>>,
    now: int,
    fuel: nat,
)
    requires
        in_time_order(pending),
        schedules_wf(tasks),
    ensures
        in_time_order(tick(pending, tasks, now, fuel).pending),
        schedules_wf(tick(pending, tasks, now, fuel).tasks),
        forall|i: int|
            0 <= i < tick(pending, tasks, now, fuel).fired.len() ==> {
                &&& (#[trigger] tick(pending, tasks, now, fuel).fired[i]).time@ <= now
                &&& tasks.contains_key(tick(pending, tasks, now, fuel).fired[i].key.0)
            },
        forall|id: u128| #[trigger]
            tick(pending, tasks, now, fuel).tasks.contains_key(id) ==> tasks.contains_key(id),
    decreases fuel,
{
    if fuel == 0 || pending.len() == 0 || pending[0].time@ > now {
    } else {
        let top = pending[0];
        let rest = pending.drop_first();
        let id = top.key.0;
        let less = (fuel - 1) as nat;
        assert(in_time_order(rest)) by {
            assert forall|i: int, j: int| 0 <= i <= j < rest.len() implies rest[i].time@
                <= rest[j].time@ by {
                assert(pending[i + 1].time@ <= pending[j + 1].time@);
            }
        }
        if !tasks.contains_key(id) {
            lemma_tick(rest, tasks, now, less);
        } else {
            let task = tasks[id];
            task.schedule.lemma_step(top.time);
            match task.schedule.yielded() {
                Some(y) => {
                    let run = TaskRun { key: top.key, time: y };
                    lemma_enqueue(rest, run);
                    let tasks2 = tasks.insert(id, stepped(task));
                    assert(schedules_wf(tasks2));
                    lemma_tick(enqueue(rest, run), tasks2, now, less);
                    let after = tick(enqueue(rest, run), tasks2, now, less);
                    let whole = tick(pending, tasks, now, fuel);
                    assert(whole.fired == seq![top] + after.fired);
                    assert forall|i: int| 0 <= i < whole.fired.len() implies {
                        &&& (#[trigger] whole.fired[i]).time@ <= now
                        &&& tasks.contains_key(whole.fired[i].key.0)
                    } by {
                        if i > 0 {
                            assert(whole.fired[i] == after.fired[i - 1]);
                            assert(tasks2.contains_key(after.fired[i - 1].key.0));
                        }
                    }
                },
                None => {
                    let tasks2 = tasks.remove(id);
                    assert(schedules_wf(tasks2));
                    lemma_tick(rest, tasks2, now, less);
                    let after = tick(rest, tasks2, now, less);
                    let whole = tick(pending, tasks, now, fuel);
                    assert(whole.fired == seq![top] + after.fired);
                    assert forall|i: int| 0 <= i < whole.fired.len() implies {
                        &&& (#[trigger] whole.fired[i]).time@ <= now
                        &&& tasks.contains_key(whole.fired[i].key.0)
                    } by {
                        if i > 0 {
                            assert(whole.fired[i] == after.fired[i - 1]);
                            assert(tasks2.contains_key(after.fired[i - 1].key.0));
                        }
                    }
                },
            }
        }
    }
}

/// One dispatch: the body runs for `run` on the runtime `r`, which it leaves
/// as `r_after`, and the handle `h` that it gives goes to the manager `m`,
/// which it leaves as `m_after`.
pub open spec fn one_dispatch<R: Runtime, F: RunTask<R>, H: HandleManager<R::Handle>>(
    body: F,
    run: TaskRun,
    r: R,
    m: H,
    h: R::Handle,
    r_after: R,
    m_after: H,
) -> bool {
    &&& body.runs(r, run, r_after, h)
    &&& m.manages(run, h, m_after)
}

/// What the dispatches of `fired` do to the runtime and to the handle
/// manager: one after the other, in the order of `fired`, the body of the
/// task of each fire runs once on the runtime, and the manager takes the
/// handle of that run before the next body runs. With nothing fired, both
/// stay as they are. `bodies` holds the tasks by their identifiers.
pub open spec fn dispatches<R: Runtime, S, F: RunTask<R>, H: HandleManager<R::Handle>>(
    bodies: Map<u128, Task<S, F>>,
    fired: Seq<TaskRun>,
    runtime: R,
    manager: H,
    runtime_after: R,
    manager_after: H,
) -> bool
    decreases fired.len(),
{
    if fired.len() == 0 {
        runtime_after == runtime && manager_after == manager
    } else {
        let last = fired.last();
        &&& bodies.contains_key(last.key.0)
        &&& exists|r: R, m: H, h: R::Handle|
            {
                &&& dispatches(bodies, fired.drop_last(), runtime, manager, r, m)
                &&& #[trigger] one_dispatch(
                    bodies[last.key.0].run,
                    last,
                    r,
                    m,
                    h,
                    runtime_after,
                    manager_after,
                )
            }
    }
}

/// A manager that collects has, after the dispatches of `fired`, what it had
/// before and one handle more for each fire.
pub proof fn lemma_dispatches_collect<R: Runtime, S, F: RunTask<R>>(
    bodies: Map<u128, Task<S, F>>,
    fired: Seq<TaskRun>,
    runtime: R,
    manager: Vec<R::Handle>,
    runtime_after: R,
    manager_after: Vec<R::Handle>,
)
    requires
        dispatches(bodies, fired, runtime, manager, runtime_after, manager_after),
    ensures
        manager_after@.len() == manager@.len() + fired.len(),
        manager_after@.take(manager@.len() as int) == manager@,
    decreases fired.len(),
{
    if fired.len() == 0 {
        assert(manager@.take(manager@.len() as int) =~= manager@);
    } else {
        let last = fired.last();
        let (r, m, h) = choose|r: R, m: Vec<R::Handle>, h: R::Handle|
            {
                &&& dispatches(bodies, fired.drop_last(), runtime, manager, r, m)
                &&& #[trigger] one_dispatch(
                    bodies[last.key.0].run,
                    last,
                    r,
                    m,
                    h,
                    runtime_after,
                    manager_after,
                )
            };
        lemma_dispatches_collect(bodies, fired.drop_last(), runtime, manager, r, m);
        assert(manager_after@ == m@.push(h));
        assert(manager_after@.take(manager@.len() as int) =~= m@.take(manager@.len() as int));
    }
}

/// Manages tasks: binds each to an identifier, keeps the queue of pending
/// fires, and dispatches what is due to the runtime.
pub struct Scheduler<R: Runtime, S: Schedule, F: RunTask<R>, H = ()> {
    /// The pending fires, in the order of their instants; among fires at one
    /// instant, in the order in which they came.
    pub next_up: Vec<TaskRun>,
    /// The bound tasks, by the number of their identifier.
    pub task_map: HashMap<u128, Task<S, F>>,
    pub runtime: R,
    pub handle_manager: H,
}

impl<R: Runtime, S: Schedule, F: RunTask<R>> Scheduler<R, S, F, ()> {
    /// A scheduler without tasks that dispatches to `runtime` and discards
    /// the handles.
    pub fn new(runtime: R) -> (made: Self)
        ensures
            made.wf(),
            made.is_steady(),
            made.next_up@ == Seq::<TaskRun>::empty(),
            made.task_map@ == Map::<u128, Task<S, F>>::empty(),
            made.runtime == runtime,
    {
        broadcast use vstd::std_specs::hash::group_hash_axioms;

        Self { next_up: Vec::new(), task_map: HashMap::new(), runtime, handle_manager: () }
    }
}

impl<R: Runtime + Default, S: Schedule, F: RunTask<R>, H: Default> Default for Scheduler<
    R,
    S,
    F,
    H,
> {
    /// A scheduler without tasks, with the runtime and the handle manager
    /// that their types give by default.
    fn default() -> (made: Self)
        ensures
            made.wf(),
            made.next_up@ == Seq::<TaskRun>::empty(),
            made.task_map@ == Map::<u128, Task<S, F>>::empty(),
    {
        broadcast use vstd::std_specs::hash::group_hash_axioms;

        Self {
            next_up: Vec::new(),
            task_map: HashMap::new(),
            runtime: R::default(),
            handle_manager: H::default(),
        }
    }
}

impl<R: Runtime, S: Schedule, F: RunTask<R>, H> Scheduler<R, S, F, H> {
    /// The queue is in time order, and every bound schedule is well-formed.
    pub open spec fn wf(&self) -> bool {
        &&& in_time_order(self.next_up@)
        &&& schedules_wf(self.task_map@)
    }

    /// Every queued fire of a bound task is one that the task's schedule,
    /// which is orderly, does not go back behind. A new scheduler is steady,
    /// and stays so as long as the tasks that are added have orderly
    /// schedules.
    pub open spec fn is_steady(&self) -> bool {
        steady(self.next_up@, self.task_map@)
    }

    /// Whether the scheduler is well-formed: what a caller that cannot see
    /// the invariant tests before it hands the scheduler to an operation.
    pub fn is_wf(&self) -> (ok: bool)
        ensures
            ok == self.wf(),
    {
        broadcast use vstd::std_specs::hash::group_hash_axioms;

        let mut i: usize = 1;
        while i < self.next_up.len()
            invariant
                1 <= i,
                forall|a: int, b: int|
                    0 <= a <= b < i && b < self.next_up@.len() ==> self.next_up@[a].time@
                        <= self.next_up@[b].time@,
            decreases self.next_up.len() - i,
        {
            if self.next_up[i - 1].time.nanos > self.next_up[i].time.nanos {
                return false;
            }
            proof {
                assert forall|a: int, b: int|
                    0 <= a <= b < i + 1 && b < self.next_up@.len() implies self.next_up@[a].time@
                    <= self.next_up@[b].time@ by {
                    if b == i && a < i {
                        assert(self.next_up@[a].time@ <= self.next_up@[i - 1].time@);
                    }
                }
            }
            i = i + 1;
        }
        let mut ok = true;
        for pair in bound: self.task_map.iter()
            invariant
                ok == (forall|k: int| 0 <= k < bound.index() ==> (#[trigger] bound.seq()[k]).1.schedule.wf()),
        {
            if !pair.1.schedule.is_wf() {
                ok = false;
            }
        }
        proof {
            let pairs = self.task_map.iter().remaining();
            if ok {
                assert forall|id: u128| self.task_map@.contains_key(id) implies (
                #[trigger] self.task_map@[id]).schedule.wf() by {
                    assert(pairs.contains((&id, &self.task_map@[id])));
                    let k = choose|k: int| 0 <= k < pairs.len() && pairs[k] == (&id, &self.task_map@[id]);
                    assert(pairs[k].1.schedule.wf());
                }
            } else {
                let k = choose|k: int| 0 <= k < pairs.len() && !(#[trigger] pairs[k]).1.schedule.wf();
                assert(self.task_map@.contains_key(*pairs[k].0));
                assert(self.task_map@[*pairs[k].0] == *pairs[k].1);
            }
        }
        ok
    }

    /// The runtime that tasks are dispatched to.
    pub fn runtime(&self) -> (runtime: &R)
        ensures
            *runtime == self.runtime,
    {
        &self.runtime
    }

    /// The same scheduler with `handle_manager` in charge of the handles.
    pub fn with_handle_manager<H2>(self, handle_manager: H2) -> (made: Scheduler<R, S, F, H2>)
        ensures
            made.next_up == self.next_up,
            made.task_map == self.task_map,
            made.runtime == self.runtime,
            made.handle_manager == handle_manager,
    {
        Scheduler {
            next_up: self.next_up,
            task_map: self.task_map,
            runtime: self.runtime,
            handle_manager,
        }
    }

    /// Puts `run` into the queue, behind every record of the same instant.
    fn push_run(&mut self, run: TaskRun)
        ensures
            final(self).next_up@ == enqueue(old(self).next_up@, run),
            final(self).task_map == old(self).task_map,
            final(self).runtime == old(self).runtime,
            final(self).handle_manager == old(self).handle_manager,
    {
        let mut at: usize = 0;
        while at < self.next_up.len() && self.next_up[at].time.nanos <= run.time.nanos
            invariant
                *self == *old(self),
                at <= self.next_up.len(),
                slot_after(self.next_up@, run.time@, 0) == slot_after(
                    self.next_up@,
                    run.time@,
                    at as int,
                ),
            decreases self.next_up.len() - at,
        {
            at = at + 1;
        }
        self.next_up.insert(at, run);
    }
}

impl<R: Runtime, S: Schedule, F: RunTask<R>, H> Scheduler<R, S, F, H> {
    /// Takes the fires of the task `key` out of the queue.
    fn drop_fires_of(&mut self, key: TaskUid)
        ensures
            final(self).next_up@ == without_fires_of(old(self).next_up@, key),
            final(self).task_map == old(self).task_map,
            final(self).runtime == old(self).runtime,
            final(self).handle_manager == old(self).handle_manager,
    {
        let mut kept: Vec<TaskRun> = Vec::new();
        let mut i: usize = 0;
        proof {
            reveal(Seq::filter);
            assert(self.next_up@.take(0) =~= Seq::<TaskRun>::empty());
        }
        while i < self.next_up.len()
            invariant
                *self == *old(self),
                i <= self.next_up.len(),
                kept@ == without_fires_of(self.next_up@.take(i as int), key),
            decreases self.next_up.len() - i,
        {
            let run = self.next_up[i];
            proof {
                self.next_up@.take(i as int).lemma_filter_push(run, not_of(key));
                assert(self.next_up@.take(i as int).push(run) =~= self.next_up@.take(i + 1));
            }
            if run.key.0 != key.0 {
                kept.push(run);
            }
            i = i + 1;
        }
        proof {
            assert(self.next_up@.take(self.next_up@.len() as int) =~= self.next_up@);
        }
        self.next_up = kept;
    }
}

impl<R: Runtime, S: Schedule, F: RunTask<R>, H: HandleManager<R::Handle>> Scheduler<R, S, F, H> {
    /// Binds `task` to `key` and queues its first fire. An earlier binding of
    /// `key` is replaced, and the fires that were queued for `key` are taken
    /// out of the queue: the fire of the new task is the only one of `key`
    /// that is left. A task whose schedule yields nothing is dropped, and
    /// nothing changes.
    pub fn add_task(&mut self, key: TaskUid, task: Task<S, F>)
        requires
            old(self).wf(),
            task.schedule.wf(),
        ensures
            final(self).wf(),
            final(self).runtime == old(self).runtime,
            final(self).handle_manager == old(self).handle_manager,
            match task.schedule.yielded() {
                Some(first) => {
                    &&& final(self).next_up@ == enqueue(
                        without_fires_of(old(self).next_up@, key),
                        TaskRun { key, time: first },
                    )
                    &&& final(self).task_map@ == old(self).task_map@.insert(key.0, stepped(task))
                    &&& only_fire_of(final(self).next_up@, key, first)
                },
                None => {
                    &&& final(self).next_up@ == old(self).next_up@
                    &&& final(self).task_map@ == old(self).task_map@
                },
            },
            old(self).is_steady() && task.schedule.orderly() ==> final(self).is_steady(),
    {
        broadcast use vstd::std_specs::hash::group_hash_axioms;

        let ghost given = task;
        let mut task = task;
        proof {
            task.schedule.lemma_step(Dtu { nanos: 0 });
        }
        if let Some(first) = task.schedule.next() {
            let run = TaskRun { key, time: first };
            proof {
                let cleared = without_fires_of(self.next_up@, key);
                lemma_without_fires_of(self.next_up@, key);
                lemma_enqueue(cleared, run);
                lemma_slot_after(cleared, run.time@, 0);
                let at = slot_after(cleared, run.time@, 0);
                assert forall|i: int|
                    0 <= i < enqueue(cleared, run).len() && (#[trigger] enqueue(
                        cleared,
                        run,
                    )[i]).key == key implies enqueue(cleared, run)[i].time == first by {
                    if i != at {
                        let k = if i < at { i } else { i - 1 };
                        assert(enqueue(cleared, run)[i] == cleared[k]);
                    }
                }
                if old(self).is_steady() && given.schedule.orderly() {
                    lemma_add_keeps_steady(old(self).next_up@, old(self).task_map@, key, given);
                }
            }
            self.task_map.insert(key.0, task);
            self.drop_fires_of(key);
            self.push_run(run);
        }
    }

    /// Unbinds `key` and hands back the task that was bound to it, if there
    /// was one. Fires that are queued for `key` stay in the queue; a tick
    /// discards them.
    pub fn delete_task(&mut self, key: TaskUid) -> (task: Option<Task<S, F>>)
        requires
            old(self).wf(),
        ensures
            final(self).wf(),
            final(self).next_up == old(self).next_up,
            final(self).runtime == old(self).runtime,
            final(self).handle_manager == old(self).handle_manager,
            final(self).task_map@ == old(self).task_map@.remove(key.0),
            task == (if old(self).task_map@.contains_key(key.0) {
                Some(old(self).task_map@[key.0])
            } else {
                None
            }),
            old(self).is_steady() ==> final(self).is_steady(),
    {
        broadcast use vstd::std_specs::hash::group_hash_axioms;

        proof {
            if old(self).is_steady() {
                lemma_delete_keeps_steady(old(self).next_up@, old(self).task_map@, key);
            }
        }
        self.task_map.remove(&key.0)
    }

    /// Dispatches every fire that is due at the current instant of the
    /// system clock, and returns the fires dispatched, in order.
    pub fn execute_by_now(&mut self) -> (fired: Vec<TaskRun>)
        requires
            old(self).wf(),
        ensures
            final(self).wf(),
            exists|at: Dtu|
                {
                    let done = #[trigger] tick(
                        old(self).next_up@,
                        old(self).task_map@,
                        at@,
                        usize::MAX as nat,
                    );
                    &&& final(self).next_up@ == done.pending
                    &&& final(self).task_map@ == done.tasks
                    &&& fired@ == done.fired
                    &&& settled(final(self).next_up@, at@) || tick_steps(
                        old(self).next_up@,
                        old(self).task_map@,
                        at@,
                        usize::MAX as nat,
                    ) == usize::MAX
                    &&& forall|i: int| 0 <= i < fired@.len() ==> (#[trigger] fired@[i]).time@ <= at@
                },
            old(self).is_steady() ==> {
                &&& final(self).is_steady()
                &&& forall|i: int, j: int|
                    0 <= i <= j < fired@.len() ==> fired@[i].time@ <= fired@[j].time@
            },
            dispatches(
                old(self).task_map@,
                fired@,
                old(self).runtime,
                old(self).handle_manager,
                final(self).runtime,
                final(self).handle_manager,
            ),
            fired@.len() == 0 ==> {
                &&& final(self).runtime == old(self).runtime
                &&& final(self).handle_manager == old(self).handle_manager
            },
    {
        let at = now();
        let fired = self.execute(at);
        proof {
            let done = tick(old(self).next_up@, old(self).task_map@, at@, usize::MAX as nat);
            assert(self.next_up@ == done.pending);
        }
        fired
    }

    /// The tick: dispatches every fire that is due at `base_time`, in the
    /// order of the queue, and returns the fires dispatched. Each dispatch
    /// runs the task's body on the runtime and hands the handle to the
    /// handle manager. One call takes at most `usize::MAX` records off the
    /// queue; unless it took that many, nothing that is due is left.
    pub fn execute(&mut self, base_time: Dtu) -> (fired: Vec<TaskRun>)
        requires
            old(self).wf(),
        ensures
            final(self).wf(),
            final(self).next_up@ == tick(
                old(self).next_up@,
                old(self).task_map@,
                base_time@,
                usize::MAX as nat,
            ).pending,
            final(self).task_map@ == tick(
                old(self).next_up@,
                old(self).task_map@,
                base_time@,
                usize::MAX as nat,
            ).tasks,
            fired@ == tick(
                old(self).next_up@,
                old(self).task_map@,
                base_time@,
                usize::MAX as nat,
            ).fired,
            settled(final(self).next_up@, base_time@) || tick_steps(
                old(self).next_up@,
                old(self).task_map@,
                base_time@,
                usize::MAX as nat,
            ) == usize::MAX,
            forall|i: int| 0 <= i < fired@.len() ==> (#[trigger] fired@[i]).time@ <= base_time@,
            old(self).is_steady() ==> {
                &&& final(self).is_steady()
                &&& forall|i: int, j: int|
                    0 <= i <= j < fired@.len() ==> fired@[i].time@ <= fired@[j].time@
            },
            dispatches(
                old(self).task_map@,
                fired@,
                old(self).runtime,
                old(self).handle_manager,
                final(self).runtime,
                final(self).handle_manager,
            ),
            fired@.len() == 0 ==> {
                &&& final(self).runtime == old(self).runtime
                &&& final(self).handle_manager == old(self).handle_manager
            },
    {
        broadcast use vstd::std_specs::hash::group_hash_axioms;

        proof {
            lemma_tick_settles(
                old(self).next_up@,
                old(self).task_map@,
                base_time@,
                usize::MAX as nat,
            );
            lemma_tick(old(self).next_up@, old(self).task_map@, base_time@, usize::MAX as nat);
            if old(self).is_steady() {
                lemma_tick_in_order(
                    old(self).next_up@,
                    old(self).task_map@,
                    base_time@,
                    usize::MAX as nat,
                );
            }
        }
        let mut fired: Vec<TaskRun> = Vec::new();
        let mut fuel: usize = usize::MAX;
        let ghost whole = tick(old(self).next_up@, old(self).task_map@, base_time@, usize::MAX as nat);
        proof {
            assert(Seq::<TaskRun>::empty() + whole.fired =~= whole.fired);
        }
        while fuel > 0 && self.next_up.len() > 0 && self.next_up[0].time.nanos <= base_time.nanos
            invariant
                self.wf(),
                whole == tick(old(self).next_up@, old(self).task_map@, base_time@, usize::MAX as nat),
                ({
                    let rest = tick(self.next_up@, self.task_map@, base_time@, fuel as nat);
                    &&& whole.pending == rest.pending
                    &&& whole.tasks == rest.tasks
                    &&& whole.fired == fired@ + rest.fired
                }),
                forall|id: u128| #[trigger]
                    self.task_map@.contains_key(id) ==> old(self).task_map@.contains_key(id)
                        && self.task_map@[id].run == old(self).task_map@[id].run,
                dispatches(
                    old(self).task_map@,
                    fired@,
                    old(self).runtime,
                    old(self).handle_manager,
                    self.runtime,
                    self.handle_manager,
                ),
            decreases fuel,
        {
            let ghost before_pending = self.next_up@;
            let ghost before_tasks = self.task_map@;
            let ghost rest = tick(before_pending, before_tasks, base_time@, fuel as nat);
            let ghost fired_before = fired@;
            fuel = fuel - 1;
            let top = self.next_up.remove(0);
            proof {
                assert(self.next_up@ =~= before_pending.drop_first());
                assert(in_time_order(self.next_up@)) by {
                    assert forall|i: int, j: int| 0 <= i <= j < self.next_up@.len() implies self.next_up@[i].time@
                        <= self.next_up@[j].time@ by {
                        assert(before_pending[i + 1].time@ <= before_pending[j + 1].time@);
                    }
                }
            }
            match self.task_map.remove(&top.key.0) {
                None => {
                    proof {
                        assert(self.task_map@ =~= before_tasks);
                    }
                },
                Some(task) => {
                    let mut task = task;
                    let ghost runtime_before = self.runtime;
                    let ghost manager_before = self.handle_manager;
                    let handle = task.run.run(&mut self.runtime, &top);
                    let ghost given = handle;
                    self.handle_manager.manage(&top, handle);
                    fired.push(top);
                    proof {
                        assert(fired@.drop_last() =~= fired_before);
                        assert(before_tasks.contains_key(top.key.0));
                        assert(task.run == old(self).task_map@[top.key.0].run);
                        assert(one_dispatch(
                            old(self).task_map@[top.key.0].run,
                            top,
                            runtime_before,
                            manager_before,
                            given,
                            self.runtime,
                            self.handle_manager,
                        ));
                    }
                    let ghost was = task;
                    proof {
                        was.schedule.lemma_step(top.time);
                    }
                    match task.schedule.next() {
                        Some(y) => {
                            let run = TaskRun { key: top.key, time: y };
                            proof {
                                lemma_enqueue(self.next_up@, run);
                                assert(task == stepped(was));
                            }
                            self.task_map.insert(top.key.0, task);
                            self.push_run(run);
                            proof {
                                assert(self.task_map@ =~= before_tasks.insert(
                                    top.key.0,
                                    stepped(was),
                                ));
                            }
                        },
                        None => {},
                    }
                    proof {
                        let after = tick(self.next_up@, self.task_map@, base_time@, fuel as nat);
                        assert(rest.fired == seq![top] + after.fired);
                        assert(fired@ + after.fired =~= fired_before + rest.fired);
                    }
                },
            }
        }
        proof {
            let rest = tick(self.next_up@, self.task_map@, base_time@, fuel as nat);
            assert(rest.fired =~= Seq::<TaskRun>::empty());
            assert(fired@ + rest.fired =~= fired@);
        }
        fired
    }
}

} // verus!
