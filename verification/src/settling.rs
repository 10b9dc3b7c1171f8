//! An update settles the simulation: a second update to the same time
//! changes nothing.

use vstd::prelude::*;
use crate::decimal::DecimalModel;
use crate::hierarchy::{child_of, lemma_below_holds_children, lemma_below_valid, lemma_find_unique};
use crate::simulation::{
    advanced, below, body_position, find, find_from, lemma_find_from, run, RecordModel,
    SimulationModel,
};
use crate::violation::Violation;

verus! {

/// Whether two records differ at most in what an update writes.
pub open spec fn same_frame(a: RecordModel, b: RecordModel) -> bool {
    a.id == b.id && a.parent == b.parent && a.satellites == b.satellites && a.body == b.body
}

/// Whether two sequences of records differ at most in what an update
/// writes.
pub open spec fn same_frames(rs: Seq<RecordModel>, us: Seq<RecordModel>) -> bool {
    &&& rs.len() == us.len()
    &&& forall|t: int| 0 <= t < rs.len() ==> same_frame(rs[t], #[trigger] us[t])
}

/// Whether the record at index `i` is what an update to `time` would write.
#[verifier::opaque]
pub open spec fn settled_at(rs: Seq<RecordModel>, time: DecimalModel, i: int) -> bool {
    advanced(rs, time, i) == Ok::<RecordModel, Violation>(rs[i])
}

/// Whether `b` stands in `plan` at or after `from`.
pub open spec fn occurs_from(plan: Seq<int>, b: int, from: int) -> bool {
    exists|t: int| from <= t < plan.len() && #[trigger] plan[t] == b
}

/// Whether `b` stands in `plan` before `from`.
pub open spec fn occurs_before(plan: Seq<int>, b: int, from: int) -> bool {
    exists|t: int| 0 <= t < from && t < plan.len() && #[trigger] plan[t] == b
}

/// Whether the record at index `b` is found under a satellite id of some
/// record.
pub open spec fn has_lister(rs: Seq<RecordModel>, b: int) -> bool {
    exists|q: int| 0 <= q < rs.len() && #[trigger] child_of(rs, q, b)
}

/// Whether every body that `plan` names is named after the body that lists
/// it and named again after each naming of that body.
pub open spec fn orderly(rs: Seq<RecordModel>, plan: Seq<int>) -> bool {
    &&& forall|t: int| 0 <= t < plan.len() ==> 0 <= (#[trigger] plan[t]) < rs.len()
    &&& forall|t: int| 0 <= t < plan.len() ==> has_lister(rs, #[trigger] plan[t])
    &&& forall|t: int, b: int|
        0 <= t < plan.len() && #[trigger] child_of(rs, plan[t], b) ==> occurs_from(
            plan,
            b,
            t + 1,
        )
}

/// A search by id goes by the ids alone.
pub proof fn lemma_find_frame(rs: Seq<RecordModel>, us: Seq<RecordModel>, id: int, from: int)
    requires
        same_frames(rs, us),
    ensures
        find_from(us, id, from) == find_from(rs, id, from),
    decreases rs.len() - from,
{
    if 0 <= from < rs.len() {
        assert(same_frame(rs[from], us[from]));
        lemma_find_frame(rs, us, id, from + 1);
    }
}

/// The descendants go by ids and satellites alone.
pub proof fn lemma_below_frame(
    rs: Seq<RecordModel>,
    us: Seq<RecordModel>,
    bound: int,
    i: int,
    k: int,
)
    requires
        same_frames(rs, us),
    ensures
        below(us, bound, i, k) == below(rs, bound, i, k),
    decreases
            if 0 <= i < rs.len() {
                bound - rs[i].id
            } else {
                0
            },
            if 0 <= i < rs.len() {
                rs[i].satellites.len() - k
            } else {
                0
            },
{
    if 0 <= i < rs.len() && 0 <= k < rs[i].satellites.len() {
        assert(same_frame(rs[i], us[i]));
        lemma_below_frame(rs, us, bound, i, k + 1);
        lemma_find_frame(rs, us, rs[i].satellites[k], 0);
        lemma_find_from(rs, rs[i].satellites[k], 0);
        match find(rs, rs[i].satellites[k]) {
            Some(j) => {
                assert(same_frame(rs[j], us[j]));
                if rs[i].id < rs[j].id < bound {
                    lemma_below_frame(rs, us, bound, j, 0);
                }
            },
            None => {},
        }
    } else if 0 <= i < rs.len() {
        assert(same_frame(rs[i], us[i]));
    }
}

/// The plan of an update goes by ids, satellites and descriptions alone.
pub proof fn lemma_plan_frame(m: SimulationModel, u: SimulationModel, i: int)
    requires
        same_frames(m.records, u.records),
        m.next_id == u.next_id,
    ensures
        u.plan_from(i) == m.plan_from(i),
    decreases m.records.len() - i,
{
    if 0 <= i < m.records.len() {
        assert(same_frame(m.records[i], u.records[i]));
        lemma_plan_frame(m, u, i + 1);
        lemma_below_frame(m.records, u.records, m.next_id, i, 0);
    }
}

/// Where a body is goes by its description and by where its parent is.
pub proof fn lemma_position_frame(
    rs: Seq<RecordModel>,
    us: Seq<RecordModel>,
    time: DecimalModel,
    i: int,
)
    requires
        same_frames(rs, us),
        0 <= i < rs.len(),
        rs[i].parent matches Some(p) ==> (find(rs, p) matches Some(j) ==> us[j].position
            == rs[j].position),
    ensures
        body_position(us, time, us[i]) == body_position(rs, time, rs[i]),
{
    assert(same_frame(rs[i], us[i]));
    match rs[i].parent {
        Some(p) => {
            lemma_find_frame(rs, us, p, 0);
        },
        None => {},
    }
}

/// What an update writes for a body goes by its description and by where
/// its parent is.
pub proof fn lemma_advanced_frame(
    rs: Seq<RecordModel>,
    us: Seq<RecordModel>,
    time: DecimalModel,
    i: int,
)
    requires
        same_frames(rs, us),
        0 <= i < rs.len(),
        rs[i].parent matches Some(p) ==> (find(rs, p) matches Some(j) ==> us[j].position
            == rs[j].position),
    ensures
        match advanced(rs, time, i) {
            Ok(r) => advanced(us, time, i) == Ok::<RecordModel, Violation>(
                RecordModel {
                    position: r.position,
                    velocity: r.velocity,
                    orientation: r.orientation,
                    ..us[i]
                },
            ),
            Err(e) => advanced(us, time, i) == Err::<RecordModel, Violation>(e),
        },
{
    reveal(advanced);
    assert(same_frame(rs[i], us[i]));
    lemma_position_frame(rs, us, time, i);
    match time.minus(DecimalModel::one()) {
        Some(before) => {
            lemma_position_frame(rs, us, before, i);
        },
        None => {},
    }
}

/// The descendants of a body name, after each body, the bodies found under
/// its satellite ids, and name only bodies found under a satellite id.
pub proof fn lemma_below_orderly(m: SimulationModel, i: int, k: int)
    requires
        m.wf(),
        0 <= i < m.records.len(),
        0 <= k,
    ensures
        orderly(m.records, below(m.records, m.next_id, i, k)),
    decreases m.next_id - m.records[i].id, m.records[i].satellites.len() - k,
{
    let rs = m.records;
    let seq = below(rs, m.next_id, i, k);
    lemma_below_valid(m, i, k);
    if k < rs[i].satellites.len() {
        let rest = below(rs, m.next_id, i, k + 1);
        lemma_below_orderly(m, i, k + 1);
        lemma_find_from(rs, rs[i].satellites[k], 0);
        match find(rs, rs[i].satellites[k]) {
            Some(j) => {
                let sub = below(rs, m.next_id, j, 0);
                lemma_below_orderly(m, j, 0);
                lemma_below_valid(m, j, 0);
                assert(seq == seq![j] + sub + rest);
                let a = 1 + sub.len() as int;
                assert(forall|t: int| 1 <= t < a ==> seq[t] == sub[t - 1]);
                assert(forall|t: int| a <= t < seq.len() ==> seq[t] == rest[t - a]);
                assert forall|t: int| 0 <= t < seq.len() implies has_lister(
                    rs,
                    #[trigger] seq[t],
                ) by {
                    if t == 0 {
                        assert(child_of(rs, i, j));
                    } else if t < a {
                        assert(seq[t] == sub[t - 1]);
                        assert(has_lister(rs, sub[t - 1]));
                    } else {
                        assert(seq[t] == rest[t - a]);
                        assert(has_lister(rs, rest[t - a]));
                    }
                }
                assert forall|t: int, b: int|
                    0 <= t < seq.len() && #[trigger] child_of(rs, seq[t], b) implies occurs_from(
                    seq,
                    b,
                    t + 1,
                ) by {
                    if t == 0 {
                        let at = choose|at: int|
                            0 <= at < rs[j].satellites.len() && #[trigger] find(
                                rs,
                                rs[j].satellites[at],
                            ) == Some(b);
                        lemma_below_holds_children(m, j, 0, at);
                        let s = choose|s: int| 0 <= s < sub.len() && sub[s] == b;
                        assert(seq[s + 1] == b);
                    } else if t < a {
                        assert(seq[t] == sub[t - 1]);
                        assert(child_of(rs, sub[t - 1], b));
                        let s = choose|s: int| t <= s < sub.len() && #[trigger] sub[s] == b;
                        assert(seq[s + 1] == b);
                    } else {
                        assert(seq[t] == rest[t - a]);
                        assert(child_of(rs, rest[t - a], b));
                        let s = choose|s: int| t - a + 1 <= s < rest.len() && #[trigger] rest[s] == b;
                        assert(seq[s + a] == b);
                    }
                }
            },
            None => {
                assert(seq == rest);
            },
        }
    }
}

/// The plan of an update is orderly.
pub proof fn lemma_plan_orderly(m: SimulationModel, i: int)
    requires
        m.wf(),
        0 <= i,
    ensures
        orderly(m.records, m.plan_from(i)),
    decreases m.records.len() - i,
{
    let rs = m.records;
    let plan = m.plan_from(i);
    if i < rs.len() {
        let rest = m.plan_from(i + 1);
        lemma_plan_orderly(m, i + 1);
        if rs[i].body.dynamics is Static {
            let down = m.descendants(i);
            lemma_below_orderly(m, i, 0);
            assert(plan == down + rest);
            let a = down.len() as int;
            assert(forall|t: int| 0 <= t < a ==> plan[t] == down[t]);
            assert(forall|t: int| a <= t < plan.len() ==> plan[t] == rest[t - a]);
            assert forall|t: int| 0 <= t < plan.len() implies has_lister(rs, #[trigger] plan[t]) by {
                if t < a {
                    assert(plan[t] == down[t]);
                    assert(has_lister(rs, down[t]));
                } else {
                    assert(plan[t] == rest[t - a]);
                    assert(has_lister(rs, rest[t - a]));
                }
            }
            assert forall|t: int, b: int|
                0 <= t < plan.len() && #[trigger] child_of(rs, plan[t], b) implies occurs_from(
                plan,
                b,
                t + 1,
            ) by {
                if t < a {
                    assert(plan[t] == down[t]);
                    assert(child_of(rs, down[t], b));
                    let s = choose|s: int| t + 1 <= s < down.len() && #[trigger] down[s] == b;
                    assert(plan[s] == b);
                } else {
                    assert(plan[t] == rest[t - a]);
                    assert(child_of(rs, rest[t - a], b));
                    let s = choose|s: int| t - a + 1 <= s < rest.len() && #[trigger] rest[s] == b;
                    assert(plan[s + a] == b);
                }
            }
        } else {
            assert(plan == rest);
        }
    }
}

/// Records that are all what an update would write stay as they are under
/// the update.
pub proof fn lemma_run_fixed(rs: Seq<RecordModel>, time: DecimalModel, plan: Seq<int>, from: int)
    requires
        0 <= from,
        forall|t: int|
            from <= t < plan.len() ==> 0 <= (#[trigger] plan[t]) < rs.len() && settled_at(
                rs,
                time,
                plan[t],
            ),
    ensures
        run(rs, time, plan, from) == (rs, None::<Violation>),
    decreases plan.len() - from,
{
    if from < plan.len() {
        reveal(settled_at);
        assert(settled_at(rs, time, plan[from]));
        assert(rs.update(plan[from], rs[plan[from]]) =~= rs);
        lemma_run_fixed(rs, time, plan, from + 1);
    }
}

/// A body written by an update is, right after, what an update would
/// write.
pub proof fn lemma_step_settles(
    start: SimulationModel,
    rs: Seq<RecordModel>,
    time: DecimalModel,
    c: int,
)
    requires
        start.wf(),
        same_frames(start.records, rs),
        0 <= c < rs.len(),
        advanced(rs, time, c) is Ok,
    ensures
        same_frames(rs, rs.update(c, advanced(rs, time, c)->Ok_0)),
        same_frames(start.records, rs.update(c, advanced(rs, time, c)->Ok_0)),
        settled_at(rs.update(c, advanced(rs, time, c)->Ok_0), time, c),
{
    reveal(settled_at);
    let rs0 = start.records;
    let record = advanced(rs, time, c)->Ok_0;
    let us = rs.update(c, record);
    assert(same_frame(rs[c], record)) by {
        reveal(advanced);
    }
    assert(same_frame(rs0[c], rs[c]));
    assert(same_frames(rs, us)) by {
        assert forall|t: int| 0 <= t < rs.len() implies same_frame(rs[t], #[trigger] us[t]) by {}
    }
    assert(same_frames(rs0, us)) by {
        assert forall|t: int| 0 <= t < rs0.len() implies same_frame(rs0[t], #[trigger] us[t]) by {
            assert(same_frame(rs0[t], rs[t]));
            assert(same_frame(rs[t], us[t]));
        }
    }
    match rs[c].parent {
        Some(p) => {
            lemma_find_frame(rs0, rs, p, 0);
            lemma_find_from(rs0, p, 0);
            match find(rs, p) {
                Some(j) => {
                    assert(same_frame(rs0[j], rs[j]));
                    assert(rs0[j].id == p);
                    assert(rs0[c].parent == Some(p));
                    assert(j != c);
                },
                None => {},
            }
        },
        None => {},
    }
    lemma_advanced_frame(rs, us, time, c);
}

/// A body that is what an update would write stays so when another body
/// than its parent is written.
pub proof fn lemma_step_keeps(
    rs: Seq<RecordModel>,
    us: Seq<RecordModel>,
    time: DecimalModel,
    c: int,
    b: int,
)
    requires
        same_frames(rs, us),
        0 <= c < rs.len(),
        0 <= b < rs.len(),
        b != c,
        forall|t: int| 0 <= t < rs.len() && t != c ==> rs[t] == #[trigger] us[t],
        settled_at(rs, time, b),
        !(rs[b].parent matches Some(p) && find(rs, p) == Some(c)),
    ensures
        settled_at(us, time, b),
{
    reveal(settled_at);
    match rs[b].parent {
        Some(p) => {
            lemma_find_from(rs, p, 0);
        },
        None => {},
    }
    lemma_advanced_frame(rs, us, time, b);
}

/// A body that some body lists is listed by the body that a search for its
/// parent finds.
pub proof fn lemma_lister_is_parent(m: SimulationModel, b: int, c: int)
    requires
        m.wf(),
        0 <= b < m.records.len(),
        has_lister(m.records, b),
        m.records[b].parent matches Some(p) && find(m.records, p) == Some(c),
    ensures
        child_of(m.records, c, b),
{
    let rs = m.records;
    let q = choose|q: int| 0 <= q < rs.len() && #[trigger] child_of(rs, q, b);
    let k = choose|k: int|
        0 <= k < rs[q].satellites.len() && #[trigger] find(rs, rs[q].satellites[k]) == Some(b);
    lemma_find_from(rs, rs[q].satellites[k], 0);
    assert(rs[b].parent == Some(rs[q].id));
    lemma_find_unique(m, q);
}

/// Whether every body that `plan` names before `from` and not again from
/// there on is what an update would write.
pub open spec fn settled_so_far(rs: Seq<RecordModel>, time: DecimalModel, plan: Seq<int>, from: int)
    -> bool {
    forall|b: int|
        #[trigger] occurs_before(plan, b, from) && !occurs_from(plan, b, from) ==> settled_at(
            rs,
            time,
            b,
        )
}

/// One step of a pass keeps what the pass has settled so far.
pub proof fn lemma_step_orderly(
    start: SimulationModel,
    rs: Seq<RecordModel>,
    time: DecimalModel,
    plan: Seq<int>,
    from: int,
)
    requires
        start.wf(),
        same_frames(start.records, rs),
        orderly(start.records, plan),
        0 <= from < plan.len(),
        settled_so_far(rs, time, plan, from),
        advanced(rs, time, plan[from]) is Ok,
    ensures
        same_frames(start.records, rs.update(plan[from], advanced(rs, time, plan[from])->Ok_0)),
        settled_so_far(
            rs.update(plan[from], advanced(rs, time, plan[from])->Ok_0),
            time,
            plan,
            from + 1,
        ),
{
    let rs0 = start.records;
    let c = plan[from];
    let record = advanced(rs, time, c)->Ok_0;
    let us = rs.update(c, record);
    lemma_step_settles(start, rs, time, c);
    assert forall|b: int| #[trigger]
        occurs_before(plan, b, from + 1) && !occurs_from(plan, b, from + 1) implies settled_at(
        us,
        time,
        b,
    ) by {
        let s = choose|s: int| 0 <= s < from + 1 && s < plan.len() && #[trigger] plan[s] == b;
        assert(0 <= b < rs.len());
        if b != c {
            assert(occurs_before(plan, b, from)) by {
                assert(s < from);
            }
            assert(!occurs_from(plan, b, from)) by {
                if occurs_from(plan, b, from) {
                    let t = choose|t: int| from <= t < plan.len() && #[trigger] plan[t] == b;
                    assert(t != from);
                    assert(occurs_from(plan, b, from + 1));
                }
            }
            assert(settled_at(rs, time, b));
            assert(same_frame(rs0[b], rs[b]));
            if rs[b].parent matches Some(p) && find(rs, p) == Some(c) {
                lemma_find_frame(rs0, rs, rs[b].parent.unwrap(), 0);
                assert(has_lister(rs0, plan[s]));
                lemma_lister_is_parent(start, b, c);
                assert(child_of(rs0, plan[from], b));
                assert(occurs_from(plan, b, from + 1));
            }
            lemma_step_keeps(rs, us, time, c, b);
        }
    }
}

/// A pass that meets no violation leaves every body that it names as an
/// update would write it. `start` stands for the records before the pass,
/// on which the order of the plan rests.
pub proof fn lemma_run_settles(
    start: SimulationModel,
    rs: Seq<RecordModel>,
    time: DecimalModel,
    plan: Seq<int>,
    from: int,
)
    requires
        start.wf(),
        same_frames(start.records, rs),
        orderly(start.records, plan),
        0 <= from <= plan.len(),
        settled_so_far(rs, time, plan, from),
        run(rs, time, plan, from).1 is None,
    ensures
        same_frames(start.records, run(rs, time, plan, from).0),
        forall|t: int|
            0 <= t < plan.len() ==> settled_at(run(rs, time, plan, from).0, time, #[trigger] plan[t]),
    decreases plan.len() - from,
{
    if from < plan.len() {
        let c = plan[from];
        let us = rs.update(c, advanced(rs, time, c)->Ok_0);
        assert(advanced(rs, time, c) is Ok);
        lemma_step_orderly(start, rs, time, plan, from);
        assert(run(rs, time, plan, from) == run(us, time, plan, from + 1));
        lemma_run_settles(start, us, time, plan, from + 1);
    } else {
        assert forall|t: int| 0 <= t < plan.len() implies settled_at(rs, time, #[trigger] plan[t]) by {
            assert(occurs_before(plan, plan[t], from));
        }
    }
}

/// An update that meets no violation settles the simulation: updated once
/// more to the same time, the records stay as they are, and again no
/// violation is met.
pub proof fn lemma_update_idempotent(m: SimulationModel, time: DecimalModel)
    requires
        m.wf(),
        m.updated(time).1 is None,
    ensures
        ({
            let once = SimulationModel { records: m.updated(time).0, next_id: m.next_id };
            once.updated(time) == (once.records, None::<Violation>)
        }),
{
    let plan = m.plan();
    let once = SimulationModel { records: m.updated(time).0, next_id: m.next_id };
    lemma_plan_orderly(m, 0);
    assert(same_frames(m.records, m.records)) by {
        assert forall|t: int| 0 <= t < m.records.len() implies same_frame(
            m.records[t],
            #[trigger] m.records[t],
        ) by {}
    }
    lemma_run_settles(m, m.records, time, plan, 0);
    lemma_plan_frame(m, once, 0);
    assert(forall|t: int| 0 <= t < plan.len() ==> 0 <= (#[trigger] plan[t]) < once.records.len());
    lemma_run_fixed(once.records, time, plan, 0);
}

} // verus!
