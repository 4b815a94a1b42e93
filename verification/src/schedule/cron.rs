use vstd::prelude::*;

use crate::schedule::Schedule;
use crate::time::{now, representable, Dtu, NANOS_PER_SEC};

verus! {

/// The error that the `cron` crate gives for an expression it cannot parse.
#[verifier::external_type_specification]
#[verifier::external_body]
pub struct ExCronError(cron::error::Error);

/// Whether the `cron` crate parses `expr` as a cron expression.
pub uninterp spec fn cron_expr_valid(expr: Seq<char>) -> bool;

/// The first instant after the seed at which the cron expression `expr`
/// fires in the time zone that lies `offset` seconds east of UTC, as the
/// `cron` crate finds it: whole seconds since the epoch and nanoseconds, for
/// a seed given in the same way. `None` where it finds no such instant, or
/// does not parse `expr`.
pub uninterp spec fn cron_upcoming(expr: Seq<char>, offset: int, secs: int, nanos: int) -> Option<
    (int, int),
>;

/// Whether a time zone can lie `offset` seconds east of UTC: less than a day
/// to either side.
pub open spec fn offset_in_range(offset: int) -> bool {
    -86_400 < offset < 86_400
}

/// The earliest seed, in whole seconds since the epoch, that is handed to the
/// `cron` crate.
pub const CRON_SEED_MIN: i64 = -8_000_000_000_000;

/// The latest seed, in whole seconds since the epoch, that is handed to the
/// `cron` crate.
pub const CRON_SEED_MAX: i64 = 8_000_000_000_000;

/// The first instant of the second `CRON_SEED_MIN`.
pub const CRON_CURSOR_MIN: i128 = -8_000_000_000_000_000_000_000;

/// The last instant of the second `CRON_SEED_MAX`.
pub const CRON_CURSOR_MAX: i128 = 8_000_000_000_000_999_999_999;

/// Parses `expr` with `cron::Schedule::from_str` and hands back the error, if
/// there is one. The contract only gives the outcome its name.
#[verifier::external_body]
fn cron_parse_failure(expr: &str) -> (failure: Option<cron::error::Error>)
    ensures
        failure is None <==> cron_expr_valid(expr@),
{
    expr.parse::<cron::Schedule>().err()
}

/// The message of a parse error of the `cron` crate, as its `Display` writes
/// it. Nothing is claimed of the text.
#[verifier::external_body]
fn cron_error_text(error: &cron::error::Error) -> (text: String) {
    error.to_string()
}

/// Asks the `cron` crate for the first fire of `expr` after a seed:
/// `Schedule::after` on the seed as a `chrono::DateTime` in the time zone
/// `chrono::FixedOffset::east_opt(offset)`, and the first item of the
/// iterator, read as seconds and nanoseconds since the epoch. The seed must
/// lie within the years that `chrono` represents, with room to spare, and
/// the offset within a day. The contract only gives the answer its name.
#[verifier::external_body]
fn cron_after(expr: &str, offset: i32, secs: i64, nanos: u32) -> (next: Option<(i64, u32)>)
    requires
        offset_in_range(offset as int),
        CRON_SEED_MIN <= secs <= CRON_SEED_MAX,
        nanos < 1_000_000_000,
    ensures
        parts_of(next) == cron_upcoming(expr@, offset as int, secs as int, nanos as int),
{
    let schedule = expr.parse::<cron::Schedule>().ok()?;
    let zone = chrono::FixedOffset::east_opt(offset)?;
    let seed = chrono::DateTime::from_timestamp(secs, nanos)?.with_timezone(&zone);
    let next = schedule.after(&seed).next()?;
    Some((next.timestamp(), next.timestamp_subsec_nanos()))
}

/// Seconds and nanoseconds as unbounded numbers.
pub open spec fn parts_of(parts: Option<(i64, u32)>) -> Option<(int, int)> {
    match parts {
        Some((secs, nanos)) => Some((secs as int, nanos as int)),
        None => None,
    }
}

/// The seed for a cursor: the cursor itself in seconds and nanoseconds, or
/// the earliest seed where the cursor lies before it.
pub open spec fn cron_seed(cursor: int) -> (int, int) {
    if cursor < CRON_CURSOR_MIN {
        (CRON_SEED_MIN as int, 0)
    } else {
        (cursor / (NANOS_PER_SEC as int), cursor % (NANOS_PER_SEC as int))
    }
}

/// The next fire of `expr`, in the time zone `offset` seconds east of UTC,
/// for a schedule that stands at `cursor`: what the `cron` crate finds after
/// the seed for `cursor`, as long as that lies strictly after `cursor`.
/// Nothing where the cursor lies after the latest seed.
pub open spec fn cron_probe(expr: Seq<char>, offset: int, cursor: int) -> Option<Dtu> {
    if cursor > CRON_CURSOR_MAX {
        None
    } else {
        match cron_upcoming(expr, offset, cron_seed(cursor).0, cron_seed(cursor).1) {
            Some((secs, nanos)) => {
                let at = secs * NANOS_PER_SEC + nanos;
                if cursor < at && representable(at) {
                    Some(Dtu { nanos: at as i128 })
                } else {
                    None
                }
            },
            None => None,
        }
    }
}

/// Why a cron schedule was not built.
#[derive(Debug, Clone)]
pub enum CronError {
    /// The expression does not parse; `reason` is what the parser said of it.
    Expression { reason: String },
    /// The time zone lies a day or more from UTC.
    Offset,
}

/// A schedule that fires as a cron expression says, read in a time zone at a
/// fixed offset from UTC.
#[derive(Debug, Clone)]
pub struct Cron {
    /// The cron expression.
    pub expr: String,
    /// The offset of the time zone, in seconds east of UTC.
    pub offset: i32,
    /// The instant after which the next fire is looked for: the last fire
    /// that was yielded, or the instant that the schedule started or was
    /// last skipped to.
    pub cursor: Dtu,
}

impl Cron {
    /// The schedule of the cron expression `expr`, read in the time zone
    /// `offset` seconds east of UTC, for the fires after `start`. Fails where
    /// the offset is a day or more, and where the expression does not parse.
    pub fn from_cron_expr_at(expr: &str, offset: i32, start: Dtu) -> (made: Result<Self, CronError>)
        ensures
            made is Ok <==> offset_in_range(offset as int) && cron_expr_valid(expr@),
            made matches Ok(cron) ==> {
                &&& cron.wf()
                &&& cron.expr@ == expr@
                &&& cron.offset == offset
                &&& cron.cursor == start
            },
            made matches Err(error) ==> (error is Offset <==> !offset_in_range(offset as int)),
    {
        if offset <= -86_400 || offset >= 86_400 {
            return Err(CronError::Offset);
        }
        match cron_parse_failure(expr) {
            Some(error) => Err(CronError::Expression { reason: cron_error_text(&error) }),
            None => Ok(Cron { expr: expr.to_owned(), offset, cursor: start }),
        }
    }

    /// The schedule of the cron expression `expr` in UTC, for the fires after
    /// `start`. Fails where the expression does not parse.
    pub fn utc_from_cron_expr_at(expr: &str, start: Dtu) -> (made: Result<Self, CronError>)
        ensures
            made is Ok <==> cron_expr_valid(expr@),
            made matches Ok(cron) ==> {
                &&& cron.wf()
                &&& cron.expr@ == expr@
                &&& cron.offset == 0
                &&& cron.cursor == start
            },
            made matches Err(error) ==> error is Expression,
    {
        Self::from_cron_expr_at(expr, 0, start)
    }

    /// The schedule of the cron expression `expr` in UTC, for the fires after
    /// the current instant. Fails where the expression does not parse.
    pub fn utc_from_cron_expr(expr: &str) -> (made: Result<Self, CronError>)
        ensures
            made is Ok <==> cron_expr_valid(expr@),
            made matches Ok(cron) ==> cron.wf() && cron.expr@ == expr@ && cron.offset == 0,
            made matches Err(error) ==> error is Expression,
    {
        Self::utc_from_cron_expr_at(expr, now())
    }

    /// The next fire after the cursor.
    fn probe(&self) -> (next: Option<Dtu>)
        requires
            self.wf(),
        ensures
            next == cron_probe(self.expr@, self.offset as int, self.cursor@),
    {
        if self.cursor.nanos > CRON_CURSOR_MAX {
            return None;
        }
        let (secs, nanos) = if self.cursor.nanos < CRON_CURSOR_MIN {
            (CRON_SEED_MIN, 0u32)
        } else {
            proof {
                let c = self.cursor@;
                let b = NANOS_PER_SEC as int;
                vstd::arithmetic::div_mod::lemma_div_is_ordered(CRON_CURSOR_MIN as int, c, b);
                vstd::arithmetic::div_mod::lemma_div_is_ordered(c, CRON_CURSOR_MAX as int, b);
                assert((CRON_CURSOR_MIN as int) / b == CRON_SEED_MIN) by (nonlinear_arith)
                    requires
                        b == 1_000_000_000,
                ;
                assert((CRON_CURSOR_MAX as int) / b == CRON_SEED_MAX) by (nonlinear_arith)
                    requires
                        b == 1_000_000_000,
                ;
            }
            match self.cursor.to_timestamp() {
                Some(parts) => {
                    proof {
                        vstd::arithmetic::div_mod::lemma_fundamental_div_mod_converse(
                            self.cursor@,
                            NANOS_PER_SEC as int,
                            parts.0 as int,
                            parts.1 as int,
                        );
                    }
                    parts
                },
                None => (CRON_SEED_MIN, 0u32),
            }
        };
        match cron_after(self.expr.as_str(), self.offset, secs, nanos) {
            Some((s, n)) => {
                let at = Dtu::from_timestamp(s, n);
                if self.cursor.nanos < at.nanos {
                    Some(at)
                } else {
                    None
                }
            },
            None => None,
        }
    }
}

impl Schedule for Cron {
    open spec fn wf(&self) -> bool {
        offset_in_range(self.offset as int)
    }

    open spec fn upcoming(&self) -> Option<Dtu> {
        cron_probe(self.expr@, self.offset as int, self.cursor@)
    }

    open spec fn yielded(&self) -> Option<Dtu> {
        cron_probe(self.expr@, self.offset as int, self.cursor@)
    }

    open spec fn advanced(&self) -> Self {
        match self.upcoming() {
            Some(y) => Cron { expr: self.expr, offset: self.offset, cursor: y },
            None => *self,
        }
    }

    open spec fn forwarded(&self, t: Dtu) -> Self {
        match self.upcoming() {
            Some(p) if p@ <= t@ => Cron { expr: self.expr, offset: self.offset, cursor: t },
            _ => *self,
        }
    }

    open spec fn not_before(&self, floor: int) -> bool {
        self.upcoming() matches Some(p) ==> floor <= p@
    }

    open spec fn orderly(&self) -> bool {
        true
    }

    open spec fn exact(&self) -> bool {
        true
    }

    fn is_wf(&self) -> (ok: bool) {
        -86_400 < self.offset && self.offset < 86_400
    }

    fn peek_next(&mut self) -> (next: Option<Dtu>) {
        self.probe()
    }

    fn next(&mut self) -> (next: Option<Dtu>) {
        let next = self.probe();
        if let Some(y) = next {
            self.cursor = y;
        }
        next
    }

    /// Starts the search for fires anew from `t` where the next fire does not
    /// lie after `t` already.
    fn forward_to(&mut self, t: Dtu) {
        if let Some(p) = self.probe() {
            if p.nanos <= t.nanos {
                self.cursor = t;
            }
        }
    }

    proof fn lemma_step(&self, t: Dtu) {
    }

    proof fn lemma_floor_holds(&self, floor: int, t: Dtu) {
    }

    proof fn lemma_floor_rises(&self, floor: int, t: Dtu) {
    }

    proof fn lemma_floor_weakens(&self, floor: int, lower: int) {
    }
}

} // verus!
