//! What holds of the tree that the records of a simulation form.

use vstd::prelude::*;
use vstd::seq_lib::lemma_no_dup_in_concat;
use vstd::set_lib::{lemma_int_range, lemma_len_subset, lemma_subset_equality, set_int_range};
use crate::simulation::{
    ancestors, below, find, lemma_find_from, listed_in, lists, RecordModel, SimulationModel,
};

verus! {

/// In a well-formed simulation a search by id finds the one record that
/// carries the id.
pub proof fn lemma_find_unique(m: SimulationModel, i: int)
    requires
        m.wf(),
        0 <= i < m.records.len(),
    ensures
        find(m.records, m.records[i].id) == Some(i),
{
    lemma_find_from(m.records, m.records[i].id, 0);
}

/// Whether the record at index `b` is found under one of the satellite ids
/// of the record at index `q`.
pub open spec fn child_of(rs: Seq<RecordModel>, q: int, b: int) -> bool {
    exists|k: int|
        0 <= k < rs[q].satellites.len() && #[trigger] find(rs, rs[q].satellites[k]) == Some(b)
}

/// The indices among the descendants are indices of records, each found
/// under a satellite id of the body itself or of an earlier descendant.
pub proof fn lemma_below_valid(m: SimulationModel, i: int, k: int)
    requires
        m.wf(),
        0 <= i < m.records.len(),
        0 <= k,
    ensures
        forall|t: int|
            0 <= t < below(m.records, m.next_id, i, k).len() ==> 0 <= (#[trigger] below(
                m.records,
                m.next_id,
                i,
                k,
            )[t]) < m.records.len(),
    decreases m.next_id - m.records[i].id, m.records[i].satellites.len() - k,
{
    let rs = m.records;
    let seq = below(rs, m.next_id, i, k);
    if k < rs[i].satellites.len() {
        let rest = below(rs, m.next_id, i, k + 1);
        lemma_below_valid(m, i, k + 1);
        lemma_find_from(rs, rs[i].satellites[k], 0);
        match find(rs, rs[i].satellites[k]) {
            Some(j) => {
                if rs[i].id < rs[j].id < m.next_id {
                    let sub = below(rs, m.next_id, j, 0);
                    lemma_below_valid(m, j, 0);
                    assert(seq == seq![j] + sub + rest);
                    assert forall|t: int| 0 <= t < seq.len() implies 0 <= (#[trigger] seq[t])
                        < rs.len() by {
                        if t == 0 {
                        } else if t < 1 + sub.len() {
                            assert(seq[t] == sub[t - 1]);
                        } else {
                            assert(seq[t] == rest[t - 1 - sub.len()]);
                        }
                    }
                } else {
                    assert(seq == rest);
                }
            },
            None => {
                assert(seq == rest);
            },
        }
    }
}

/// The descendants of a body hold each body found under one of its
/// satellite ids from number `k` on.
pub proof fn lemma_below_holds_children(m: SimulationModel, i: int, k: int, at: int)
    requires
        m.wf(),
        0 <= i < m.records.len(),
        0 <= k <= at < m.records[i].satellites.len(),
        find(m.records, m.records[i].satellites[at]) is Some,
    ensures
        below(m.records, m.next_id, i, k).contains(
            find(m.records, m.records[i].satellites[at]).unwrap(),
        ),
    decreases at - k,
{
    let rs = m.records;
    let seq = below(rs, m.next_id, i, k);
    let b = find(rs, rs[i].satellites[at]).unwrap();
    if k == at {
        lemma_find_from(rs, rs[i].satellites[at], 0);
        assert(rs[i].id < rs[b].id < m.next_id);
        assert(seq[0] == b);
    } else {
        lemma_below_holds_children(m, i, k + 1, at);
        let rest = below(rs, m.next_id, i, k + 1);
        let t = choose|t: int| 0 <= t < rest.len() && rest[t] == b;
        assert(seq[seq.len() - rest.len() + t] == b);
    }
}

/// Every ancestor of a body carries a smaller id than the body.
pub proof fn lemma_ancestors_smaller(m: SimulationModel, i: int)
    requires
        m.wf(),
        0 <= i < m.records.len(),
    ensures
        forall|t: int|
            0 <= t < ancestors(m.records, i).len() ==> 0 <= (#[trigger] ancestors(
                m.records,
                i,
            )[t]) < m.records.len() && m.records[ancestors(m.records, i)[t]].id
                < m.records[i].id,
    decreases m.records[i].id,
{
    let rs = m.records;
    match rs[i].parent {
        Some(p) => {
            lemma_find_from(rs, p, 0);
            match find(rs, p) {
                Some(j) => {
                    lemma_ancestors_smaller(m, j);
                },
                None => {},
            }
        },
        None => {},
    }
}

/// The ids of the ancestors of a body fall from each to the next, so that no
/// id occurs twice among them.
pub proof fn lemma_ancestors_fall(m: SimulationModel, i: int)
    requires
        m.wf(),
        0 <= i < m.records.len(),
    ensures
        forall|s: int, t: int|
            0 <= s < t < ancestors(m.records, i).len() ==> m.records[#[trigger] ancestors(
                m.records,
                i,
            )[s]].id > m.records[#[trigger] ancestors(m.records, i)[t]].id,
    decreases m.records[i].id,
{
    let rs = m.records;
    let up = ancestors(rs, i);
    match rs[i].parent {
        Some(p) => {
            lemma_find_from(rs, p, 0);
            match find(rs, p) {
                Some(j) => {
                    let rest = ancestors(rs, j);
                    lemma_ancestors_fall(m, j);
                    lemma_ancestors_smaller(m, j);
                    assert(up == seq![j] + rest);
                    assert forall|s: int, t: int| 0 <= s < t < up.len() implies rs[#[trigger] up[s]].id
                        > rs[#[trigger] up[t]].id by {
                        assert(up[t] == rest[t - 1]);
                        if s > 0 {
                            assert(up[s] == rest[s - 1]);
                        }
                    }
                },
                None => {},
            }
        },
        None => {},
    }
}

/// What follows an ancestor among the ancestors of a body are the ancestors
/// of that ancestor.
pub proof fn lemma_ancestors_suffix(m: SimulationModel, b: int, t: int)
    requires
        m.wf(),
        0 <= b < m.records.len(),
        0 <= t < ancestors(m.records, b).len(),
    ensures
        ancestors(m.records, b).subrange(t + 1, ancestors(m.records, b).len() as int)
            == ancestors(m.records, ancestors(m.records, b)[t]),
    decreases t,
{
    let rs = m.records;
    let up = ancestors(rs, b);
    let p = rs[b].parent.unwrap();
    lemma_find_from(rs, p, 0);
    let j = find(rs, p).unwrap();
    let rest = ancestors(rs, j);
    assert(up == seq![j] + rest);
    if t == 0 {
        assert(up.subrange(1, up.len() as int) =~= rest);
    } else {
        assert(up[t] == rest[t - 1]);
        lemma_ancestors_suffix(m, j, t - 1);
        assert(up.subrange(t + 1, up.len() as int) =~= rest.subrange(t, rest.len() as int));
    }
}

/// A body found under a satellite id of another has that other as its
/// nearest ancestor, and no body with a larger id than that other among its
/// ancestors.
pub proof fn lemma_child_ancestors(m: SimulationModel, i: int, k: int)
    requires
        m.wf(),
        0 <= i < m.records.len(),
        0 <= k < m.records[i].satellites.len(),
        find(m.records, m.records[i].satellites[k]) is Some,
    ensures
        ({
            let j = find(m.records, m.records[i].satellites[k]).unwrap();
            &&& 0 <= j < m.records.len()
            &&& m.records[j].id == m.records[i].satellites[k]
            &&& m.records[i].id < m.records[j].id < m.next_id
            &&& ancestors(m.records, j) == seq![i] + ancestors(m.records, i)
            &&& forall|x: int|
                0 <= x < m.records.len() && m.records[x].id > m.records[i].id ==> !ancestors(
                    m.records,
                    j,
                ).contains(x)
        }),
{
    let rs = m.records;
    lemma_find_from(rs, rs[i].satellites[k], 0);
    let j = find(rs, rs[i].satellites[k]).unwrap();
    assert(rs[j].parent == Some(rs[i].id));
    lemma_find_unique(m, i);
    lemma_ancestors_smaller(m, i);
    let up = ancestors(rs, j);
    let rest = ancestors(rs, i);
    assert(up == seq![i] + rest);
    assert forall|x: int| 0 <= x < rs.len() && rs[x].id > rs[i].id implies !up.contains(x) by {
        if up.contains(x) {
            let t = choose|t: int| 0 <= t < up.len() && up[t] == x;
            if t > 0 {
                assert(up[t] == rest[t - 1]);
            }
        }
    }
}

/// Every descendant of a body carries a larger id than the body and has the
/// body among its ancestors.
pub proof fn lemma_below_under(m: SimulationModel, i: int, k: int)
    requires
        m.wf(),
        0 <= i < m.records.len(),
        0 <= k,
    ensures
        forall|t: int|
            0 <= t < below(m.records, m.next_id, i, k).len() ==> {
                let b = #[trigger] below(m.records, m.next_id, i, k)[t];
                &&& 0 <= b < m.records.len()
                &&& m.records[b].id > m.records[i].id
                &&& ancestors(m.records, b).contains(i)
            },
    decreases m.next_id - m.records[i].id, m.records[i].satellites.len() - k,
{
    let rs = m.records;
    let seq = below(rs, m.next_id, i, k);
    lemma_below_valid(m, i, k);
    if k < rs[i].satellites.len() {
        let rest = below(rs, m.next_id, i, k + 1);
        lemma_below_under(m, i, k + 1);
        match find(rs, rs[i].satellites[k]) {
            Some(j) => {
                lemma_child_ancestors(m, i, k);
                let sub = below(rs, m.next_id, j, 0);
                lemma_below_under(m, j, 0);
                lemma_below_valid(m, j, 0);
                assert(seq == seq![j] + sub + rest);
                let a = 1 + sub.len() as int;
                assert forall|t: int| 0 <= t < seq.len() implies {
                    let b = #[trigger] seq[t];
                    &&& 0 <= b < rs.len()
                    &&& rs[b].id > rs[i].id
                    &&& ancestors(rs, b).contains(i)
                } by {
                    if t == 0 {
                        assert(ancestors(rs, j)[0] == i);
                    } else if t < a {
                        let b = sub[t - 1];
                        assert(seq[t] == b);
                        let up = ancestors(rs, b);
                        let at = choose|at: int| 0 <= at < up.len() && up[at] == j;
                        lemma_ancestors_suffix(m, b, at);
                        let tail = up.subrange(at + 1, up.len() as int);
                        assert(tail[0] == i);
                        assert(up[at + 1] == i);
                    } else {
                        assert(seq[t] == rest[t - a]);
                    }
                }
            },
            None => {
                assert(seq == rest);
            },
        }
    }
}

/// No descendant of the later satellites of a body is, or stands below, a
/// body found under an earlier satellite id of that body.
pub proof fn lemma_below_apart(m: SimulationModel, i: int, k: int, before: int)
    requires
        m.wf(),
        0 <= i < m.records.len(),
        0 <= before < k,
        before < m.records[i].satellites.len(),
        find(m.records, m.records[i].satellites[before]) is Some,
    ensures
        forall|t: int|
            0 <= t < below(m.records, m.next_id, i, k).len() ==> {
                let c = #[trigger] below(m.records, m.next_id, i, k)[t];
                let elder = find(m.records, m.records[i].satellites[before]).unwrap();
                c != elder && !ancestors(m.records, c).contains(elder)
            },
    decreases m.records[i].satellites.len() - k,
{
    let rs = m.records;
    let seq = below(rs, m.next_id, i, k);
    let elder = find(rs, rs[i].satellites[before]).unwrap();
    lemma_child_ancestors(m, i, before);
    if k < rs[i].satellites.len() {
        let rest = below(rs, m.next_id, i, k + 1);
        lemma_below_apart(m, i, k + 1, before);
        match find(rs, rs[i].satellites[k]) {
            Some(j) => {
                lemma_child_ancestors(m, i, k);
                assert(rs[i].satellites[before] != rs[i].satellites[k]);
                assert(j != elder);
                let sub = below(rs, m.next_id, j, 0);
                lemma_below_under(m, j, 0);
                assert(seq == seq![j] + sub + rest);
                let a = 1 + sub.len() as int;
                assert forall|t: int| 0 <= t < seq.len() implies {
                    let c = #[trigger] seq[t];
                    c != elder && !ancestors(rs, c).contains(elder)
                } by {
                    if t == 0 {
                    } else if t < a {
                        let c = sub[t - 1];
                        assert(seq[t] == c);
                        let up = ancestors(rs, c);
                        let at = choose|at: int| 0 <= at < up.len() && up[at] == j;
                        lemma_ancestors_suffix(m, c, at);
                        if c == elder {
                            assert(ancestors(rs, elder).contains(j));
                        }
                        if up.contains(elder) {
                            let s = choose|s: int| 0 <= s < up.len() && up[s] == elder;
                            lemma_ancestors_suffix(m, c, s);
                            if s < at {
                                let tail = up.subrange(s + 1, up.len() as int);
                                assert(tail[at - s - 1] == j);
                                assert(ancestors(rs, elder).contains(j));
                            } else if at < s {
                                let tail = up.subrange(at + 1, up.len() as int);
                                assert(tail[s - at - 1] == elder);
                                assert(ancestors(rs, j).contains(elder));
                            }
                        }
                    } else {
                        assert(seq[t] == rest[t - a]);
                    }
                }
            },
            None => {
                assert(seq == rest);
            },
        }
    }
}

/// No body stands twice among the descendants of a body.
pub proof fn lemma_below_once(m: SimulationModel, i: int, k: int)
    requires
        m.wf(),
        0 <= i < m.records.len(),
        0 <= k,
    ensures
        below(m.records, m.next_id, i, k).no_duplicates(),
    decreases m.next_id - m.records[i].id, m.records[i].satellites.len() - k,
{
    let rs = m.records;
    let seq = below(rs, m.next_id, i, k);
    if k < rs[i].satellites.len() {
        let rest = below(rs, m.next_id, i, k + 1);
        lemma_below_once(m, i, k + 1);
        match find(rs, rs[i].satellites[k]) {
            Some(j) => {
                lemma_child_ancestors(m, i, k);
                let sub = below(rs, m.next_id, j, 0);
                lemma_below_once(m, j, 0);
                lemma_below_under(m, j, 0);
                lemma_below_apart(m, i, k + 1, k);
                let head = seq![j] + sub;
                assert(head.no_duplicates()) by {
                    assert forall|s: int, t: int|
                        0 <= s < head.len() && 0 <= t < head.len() && s != t implies head[s]
                        != head[t] by {
                        if s > 0 {
                            assert(head[s] == sub[s - 1]);
                        }
                        if t > 0 {
                            assert(head[t] == sub[t - 1]);
                        }
                    }
                }
                assert forall|s: int, t: int| 0 <= s < head.len() && 0 <= t < rest.len() implies head[s]
                    != rest[t] by {
                    let c = rest[t];
                    if s > 0 {
                        assert(head[s] == sub[s - 1]);
                        assert(ancestors(rs, sub[s - 1]).contains(j));
                    }
                }
                lemma_no_dup_in_concat(head, rest);
                assert(seq == head + rest);
            },
            None => {
                assert(seq == rest);
            },
        }
    }
}

/// In a well-formed simulation every id that was handed out is carried by
/// a record.
pub proof fn lemma_id_carried(m: SimulationModel, id: int)
    requires
        m.wf(),
        0 <= id < m.next_id,
    ensures
        find(m.records, id) is Some,
        0 <= find(m.records, id).unwrap() < m.records.len(),
        m.records[find(m.records, id).unwrap()].id == id,
{
    let rs = m.records;
    let ids = rs.map_values(|r: RecordModel| r.id);
    let range = set_int_range(0, m.next_id);
    assert(ids.no_duplicates()) by {
        assert forall|a: int, b: int| 0 <= a < ids.len() && 0 <= b < ids.len() && a != b implies ids[a]
            != ids[b] by {
            if a < b {
                assert(rs[a].id != rs[b].id);
            } else {
                assert(rs[b].id != rs[a].id);
            }
        }
    }
    ids.unique_seq_to_set();
    lemma_int_range(0, m.next_id);
    assert(ids.to_set().subset_of(range)) by {
        assert forall|x: int| ids.to_set().contains(x) implies range.contains(x) by {
            let a = choose|a: int| 0 <= a < ids.len() && ids[a] == x;
            assert(rs[a].id == x);
        }
    }
    lemma_len_subset(ids.to_set(), range);
    lemma_subset_equality(ids.to_set(), range);
    assert(range.contains(id));
    assert(ids.to_set().contains(id));
    let a = choose|a: int| 0 <= a < ids.len() && ids[a] == id;
    assert(rs[a].id == id);
    lemma_find_from(rs, id, 0);
}

/// The parent of a body is the nearest of its ancestors, and the only one of
/// them that carries the parent's id; no id occurs twice among the
/// ancestors.
pub proof fn lemma_parent_above(m: SimulationModel, u: int)
    requires
        m.wf(),
        0 <= u < m.records.len(),
        m.records[u].parent is Some,
    ensures
        ({
            let p = m.records[u].parent.unwrap();
            let up = m.ancestors(u);
            &&& up.len() >= 1
            &&& find(m.records, p) == Some(up[0])
            &&& m.records[up[0]].id == p
            &&& forall|t: int| 1 <= t < up.len() ==> m.records[#[trigger] up[t]].id != p
            &&& forall|s: int, t: int|
                0 <= s < t < up.len() ==> m.records[#[trigger] up[s]].id != m.records[
                #[trigger] up[t]].id
        }),
{
    let rs = m.records;
    let p = rs[u].parent.unwrap();
    let up = m.ancestors(u);
    lemma_id_carried(m, p);
    let j = find(rs, p).unwrap();
    assert(up == seq![j] + ancestors(rs, j));
    assert(up[0] == j);
    lemma_ancestors_fall(m, u);
    assert forall|t: int| 1 <= t < up.len() implies rs[#[trigger] up[t]].id != p by {
        assert(rs[up[0]].id > rs[up[t]].id);
    }
}

/// A body with a parent stands among the descendants of that parent, and
/// there once only. This needs every body to be listed by its parent, as it
/// is when every tree entered the simulation without a parent for its root.
pub proof fn lemma_child_below(m: SimulationModel, u: int)
    requires
        m.wf(),
        m.linked(),
        0 <= u < m.records.len(),
        m.records[u].parent is Some,
    ensures
        find(m.records, m.records[u].parent.unwrap()) is Some,
        m.descendants(find(m.records, m.records[u].parent.unwrap()).unwrap()).contains(u),
        m.descendants(find(m.records, m.records[u].parent.unwrap()).unwrap()).no_duplicates(),
{
    let rs = m.records;
    assert(listed_in(rs, rs[u]));
    let j = choose|t: int| 0 <= t < rs.len() && #[trigger] lists(rs[t], rs[u]);
    lemma_find_unique(m, j);
    lemma_find_unique(m, u);
    let at = choose|k: int| 0 <= k < rs[j].satellites.len() && rs[j].satellites[k] == rs[u].id;
    lemma_below_holds_children(m, j, 0, at);
    lemma_below_once(m, j, 0);
}

} // verus!
