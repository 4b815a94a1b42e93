use std::cmp::Ordering;
use vstd::prelude::*;

use crate::time::Dtu;

verus! {

/// Unique identifier of a task: a 128-bit number, compared and ordered by its
/// numeric value.
#[derive(Debug, Clone, Copy, PartialEq, Eq, Hash, Ord, Structural)]
pub struct TaskUid(pub u128);

impl PartialOrd for TaskUid {
    fn partial_cmp(&self, other: &Self) -> (order: Option<Ordering>) {
        if self.0 < other.0 {
            Some(Ordering::Less)
        } else if self.0 == other.0 {
            Some(Ordering::Equal)
        } else {
            Some(Ordering::Greater)
        }
    }
}

impl vstd::std_specs::cmp::PartialOrdSpecImpl for TaskUid {
    open spec fn obeys_partial_cmp_spec() -> bool {
        true
    }

    open spec fn partial_cmp_spec(&self, other: &Self) -> Option<Ordering> {
        if self.0 < other.0 {
            Some(Ordering::Less)
        } else if self.0 == other.0 {
            Some(Ordering::Equal)
        } else {
            Some(Ordering::Greater)
        }
    }
}

/// The bits of a UUID that hold its version and its variant.
pub const UUID_FORM_MASK: u128 = 0xF000_C000_0000_0000_0000;

/// The version and variant bits of a random UUID: version 4, and the variant
/// of RFC 4122.
pub const UUID_RANDOM_FORM: u128 = 0x4000_8000_0000_0000_0000;

/// Draws the 128 bits of a random (version 4) UUID: `uuid::Uuid::new_v4`,
/// read as a number by `Uuid::as_u128`. The contract claims the version and
/// variant bits, which `new_v4` sets in whatever it has drawn, and nothing of
/// the other bits.
#[verifier::external_body]
fn uuid_v4_bits() -> (bits: u128)
    ensures
        bits & UUID_FORM_MASK == UUID_RANDOM_FORM,
{
    uuid::Uuid::new_v4().as_u128()
}

impl TaskUid {
    /// A random identifier: the number of a random (version 4) UUID.
    pub fn uuid() -> (uid: Self)
        ensures
            uid.0 & UUID_FORM_MASK == UUID_RANDOM_FORM,
    {
        Self(uuid_v4_bits())
    }

    /// The number this identifier wraps.
    pub fn into_inner(self) -> (inner: u128)
        ensures
            inner == self.0,
    {
        self.0
    }

    /// Wraps a caller-supplied number.
    pub fn new(inner: u128) -> (uid: Self)
        ensures
            uid.0 == inner,
    {
        Self(inner)
    }
}

/// A fire-record: the task `key` is to run at `time`.
///
/// Fire-records are compared by their instants alone. The one that is to run
/// earlier is the greater one: it has priority.
#[derive(Debug, Clone, Copy)]
pub struct TaskRun {
    pub key: TaskUid,
    pub time: Dtu,
}

impl PartialEq for TaskRun {
    fn eq(&self, other: &Self) -> (equal: bool) {
        self.time.nanos == other.time.nanos
    }
}

impl Eq for TaskRun {

}

impl vstd::std_specs::cmp::PartialEqSpecImpl for TaskRun {
    open spec fn obeys_eq_spec() -> bool {
        true
    }

    open spec fn eq_spec(&self, other: &Self) -> bool {
        self.time.nanos == other.time.nanos
    }
}

impl PartialOrd for TaskRun {
    fn partial_cmp(&self, other: &Self) -> (order: Option<Ordering>) {
        if self.time.nanos < other.time.nanos {
            Some(Ordering::Greater)
        } else if self.time.nanos == other.time.nanos {
            Some(Ordering::Equal)
        } else {
            Some(Ordering::Less)
        }
    }
}

impl vstd::std_specs::cmp::PartialOrdSpecImpl for TaskRun {
    open spec fn obeys_partial_cmp_spec() -> bool {
        true
    }

    open spec fn partial_cmp_spec(&self, other: &Self) -> Option<Ordering> {
        if self.time.nanos < other.time.nanos {
            Some(Ordering::Greater)
        } else if self.time.nanos == other.time.nanos {
            Some(Ordering::Equal)
        } else {
            Some(Ordering::Less)
        }
    }
}

impl TaskRun {
    /// The task that is to run.
    pub fn key(&self) -> (key: TaskUid)
        ensures
            key == self.key,
    {
        self.key
    }

    /// The instant at which it is to run.
    pub fn time(&self) -> (time: Dtu)
        ensures
            time == self.time,
    {
        self.time
    }
}

/// A task: a schedule, and the body that runs at each of its instants.
pub struct Task<S, F> {
    pub schedule: S,
    pub run: F,
}

impl<S, F> Task<S, F> {
    /// The task that runs `run` at each instant of `schedule`.
    pub fn new(schedule: S, run: F) -> (task: Self)
        ensures
            task.schedule == schedule,
            task.run == run,
    {
        Task { schedule, run }
    }
}

} // verus!
