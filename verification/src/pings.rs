//! Ping series: the chart data of one machine, grouped by target.
use vstd::prelude::*;
use std::collections::HashMap;
use crate::dto::{PingData, PingRecord};
use crate::forms::CreatePingRequest;
use crate::timing::{round_to_slot, slot_start, SLOT_SECONDS};

verus! {

broadcast use vstd::std_specs::hash::group_hash_axioms;

/// The chart point of a stored ping.
pub open spec fn point_of(p: PingRecord) -> PingData {
    (p.created, p.min, p.avg, p.fail)
}

/// The chart points of `target`, in the order of `rows`.
pub open spec fn series_of(rows: Seq<PingRecord>, target: i32) -> Seq<PingData>
    decreases rows.len(),
{
    if rows.len() == 0 {
        Seq::<PingData>::empty()
    } else {
        let rest = series_of(rows.drop_last(), target);
        if rows.last().target_id == target {
            rest.push(point_of(rows.last()))
        } else {
            rest
        }
    }
}

/// Some row is of `target`.
pub open spec fn has_target(rows: Seq<PingRecord>, target: i32) -> bool {
    exists|i: int| 0 <= i < rows.len() && (#[trigger] rows[i]).target_id == target
}

/// Groups the rows by target: each target that has rows maps to its chart
/// points, in the order of the rows.
pub fn group_by_target(rows: &Vec<PingRecord>) -> (res: HashMap<i32, Vec<PingData>>)
    ensures
        forall|t: i32| #[trigger] res@.contains_key(t) <==> has_target(rows@, t),
        forall|t: i32| #[trigger] res@.contains_key(t) ==> res@[t]@ == series_of(rows@, t),
{
    let mut map: HashMap<i32, Vec<PingData>> = HashMap::new();
    let mut i: usize = 0;
    while i < rows.len()
        invariant
            i <= rows.len(),
            forall|t: i32| #[trigger] map@.contains_key(t) <==> has_target(rows@.take(i as int), t),
            forall|t: i32| #[trigger]
                map@.contains_key(t) ==> map@[t]@ == series_of(rows@.take(i as int), t),
        decreases rows.len() - i,
    {
        let p = &rows[i];
        let point: PingData = (p.created, p.min, p.avg, p.fail);
        let ghost before = rows@.take(i as int);
        let ghost after = rows@.take(i + 1);
        assert(after.drop_last() =~= before);
        assert(after.last() == *p);
        let series = match map.remove(&p.target_id) {
            Some(mut v) => {
                v.push(point);
                v
            },
            None => {
                let mut v: Vec<PingData> = Vec::new();
                v.push(point);
                v
            },
        };
        map.insert(p.target_id, series);
        assert forall|t: i32| #[trigger] map@.contains_key(t) <==> has_target(after, t) by {
            if has_target(before, t) {
                let j = choose|j: int| 0 <= j < before.len() && (#[trigger] before[j]).target_id == t;
                assert(after[j] == before[j]);
            }
            if has_target(after, t) && t != p.target_id {
                let j = choose|j: int| 0 <= j < after.len() && (#[trigger] after[j]).target_id == t;
                assert(j < before.len());
                assert(before[j] == after[j]);
            }
            if t == p.target_id {
                assert(after[i as int].target_id == t);
            }
        }
        assert forall|t: i32| #[trigger] map@.contains_key(t) implies map@[t]@ == series_of(
            after,
            t,
        ) by {
            if t == p.target_id {
                if !has_target(before, t) {
                    lemma_series_empty(before, t);
                }
            }
        }
        i = i + 1;
    }
    assert(rows@.take(rows.len() as int) =~= rows@);
    map
}

proof fn lemma_series_empty(rows: Seq<PingRecord>, t: i32)
    requires
        !has_target(rows, t),
    ensures
        series_of(rows, t) == Seq::<PingData>::empty(),
    decreases rows.len(),
{
    if rows.len() > 0 {
        let r = rows.drop_last();
        assert(!has_target(r, t)) by {
            if has_target(r, t) {
                let j = choose|j: int| 0 <= j < r.len() && (#[trigger] r[j]).target_id == t;
                assert(rows[j] == r[j]);
            }
        }
        lemma_series_empty(r, t);
        assert(rows[rows.len() - 1].target_id != t);
    }
}

/// A ping result about to be stored.
pub struct NewPing {
    pub machine_id: i32,
    pub target_id: i32,
    pub ipv6: bool,
    pub created: i64,
    pub min: i32,
    pub avg: i32,
    pub fail: i32,
}

/// The record of a reported ping: filed under the five-minute slot of
/// `now`, with the reported figures.
pub fn new_ping(machine_id: i32, target_id: i32, req: &CreatePingRequest, now: i64) -> (res: NewPing)
    requires
        now >= i64::MIN + SLOT_SECONDS,
    ensures
        res.machine_id == machine_id,
        res.target_id == target_id,
        res.ipv6 == req.ipv6,
        res.created == slot_start(now as int),
        res.min == req.min as i32,
        res.avg == req.avg as i32,
        res.fail == req.fail as i32,
{
    NewPing {
        machine_id,
        target_id,
        ipv6: req.ipv6,
        created: round_to_slot(now),
        min: req.min as i32,
        avg: req.avg as i32,
        fail: req.fail as i32,
    }
}

} // verus!
