//! Time rules: chart windows, the five-minute slots pings are filed under,
//! and when an applicant machine has gone stale.
use vstd::prelude::*;
use crate::text::{chars_of, chars_equal};
use crate::dto::MachineRecord;
use crate::geo::{is_applicant_machine, is_applicant_name};

verus! {

/// Seconds in a day.
pub const DAY_SECONDS: i64 = 86400;

/// Seconds in a week.
pub const WEEK_SECONDS: i64 = 604800;

/// Seconds in a ping slot (five minutes).
pub const SLOT_SECONDS: i64 = 300;

/// The span a chart covers: a week for `7d`, a day for anything else.
pub open spec fn window_seconds(delta: Seq<char>) -> i64 {
    if delta == "7d"@ {
        WEEK_SECONDS
    } else {
        DAY_SECONDS
    }
}

/// The span a chart covers.
pub fn ping_window_seconds(delta: &str) -> (res: i64)
    ensures
        res == window_seconds(delta@),
{
    if chars_equal(&chars_of(delta), &chars_of("7d")) {
        WEEK_SECONDS
    } else {
        DAY_SECONDS
    }
}

/// The earliest ping time a chart shows at `now`: pings strictly after it
/// are shown.
pub fn ping_since(now: i64, delta: &str) -> (res: i64)
    requires
        now >= i64::MIN + WEEK_SECONDS,
    ensures
        res == now - window_seconds(delta@),
{
    now - ping_window_seconds(delta)
}

/// The slot a time is filed under: the time with its minutes rounded down
/// to a multiple of five and its seconds cleared.
pub open spec fn slot_start(ts: int) -> int {
    ts - ts % (SLOT_SECONDS as int)
}

/// Files a ping time under its five-minute slot.
pub fn round_to_slot(ts: i64) -> (res: i64)
    requires
        ts >= i64::MIN + SLOT_SECONDS,
    ensures
        res == slot_start(ts as int),
        res <= ts < res + SLOT_SECONDS,
        res % SLOT_SECONDS == 0,
{
    if ts >= 0 {
        let r = ts % SLOT_SECONDS;
        ts - r
    } else {
        // for a negative time, count from the next slot boundary down
        let a: i64 = -(ts + 1);
        let r = a % SLOT_SECONDS;
        assert((ts as int) % 300 == 299 - (a as int) % 300) by (nonlinear_arith)
            requires
                a == -(ts + 1),
                a >= 0,
        ;
        ts + r - 299
    }
}

/// Pings older than this are removed: a week before `now`.
pub fn ping_retention_cutoff(now: i64) -> (res: i64)
    requires
        now >= i64::MIN + WEEK_SECONDS,
    ensures
        res == now - WEEK_SECONDS,
{
    now - WEEK_SECONDS
}

/// Applicants not seen since this time are removed: a day before `now`.
pub fn applicant_cutoff(now: i64) -> (res: i64)
    requires
        now >= i64::MIN + DAY_SECONDS,
    ensures
        res == now - DAY_SECONDS,
{
    now - DAY_SECONDS
}

/// A machine not heard from since `cutoff`: last updated before it, or,
/// never updated, created before it.
pub open spec fn is_stale(created: i64, updated: Option<i64>, cutoff: i64) -> bool {
    match updated {
        Some(u) => u < cutoff,
        None => created < cutoff,
    }
}

/// The ids of the stale machines whose name marks them as applicants, in
/// order.
pub open spec fn expired_applicants(
    machines: Seq<(i32, Seq<char>, i64, Option<i64>)>,
    cutoff: i64,
) -> Seq<i32>
    decreases machines.len(),
{
    if machines.len() == 0 {
        Seq::<i32>::empty()
    } else {
        let rest = expired_applicants(machines.drop_last(), cutoff);
        let (id, name, created, updated) = machines.last();
        if is_stale(created, updated, cutoff) && is_applicant_name(name) {
            rest.push(id)
        } else {
            rest
        }
    }
}

/// A machine record as (id, name, created, updated).
pub open spec fn record_view(m: MachineRecord) -> (i32, Seq<char>, i64, Option<i64>) {
    (m.id, m.name@, m.created, m.updated)
}

/// Picks the applicant machines to remove.
pub fn expired_applicant_ids(machines: &Vec<MachineRecord>, cutoff: i64) -> (res: Vec<i32>)
    ensures
        res@ == expired_applicants(
            machines@.map_values(|m: MachineRecord| record_view(m)),
            cutoff,
        ),
{
    let ghost mv = machines@.map_values(|m: MachineRecord| record_view(m));
    let mut out: Vec<i32> = Vec::new();
    let mut i: usize = 0;
    assert(mv.take(0) =~= Seq::<(i32, Seq<char>, i64, Option<i64>)>::empty());
    while i < machines.len()
        invariant
            i <= machines.len(),
            mv == machines@.map_values(|m: MachineRecord| record_view(m)),
            out@ == expired_applicants(mv.take(i as int), cutoff),
        decreases machines.len() - i,
    {
        let m = &machines[i];
        assert(mv.take(i + 1).drop_last() =~= mv.take(i as int));
        assert(mv.take(i + 1).last() == record_view(*m));
        let stale = match m.updated {
            Some(u) => u < cutoff,
            None => m.created < cutoff,
        };
        if stale && is_applicant_machine(m.name.as_str()) {
            out.push(m.id);
        }
        i = i + 1;
    }
    assert(mv.take(machines.len() as int) =~= mv);
    out
}

} // verus!
