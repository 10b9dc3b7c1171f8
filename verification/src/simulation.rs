//! The engine: a flat collection of bodies, advanced to a time and queried.

use vstd::prelude::*;
use vstd::string::StringExecFns;
use crate::body::{
    lemma_count_monotonic, lemma_models, Body, BodyDynamics, BodyModel, DynamicsModel,
};
use crate::decimal::{digits_value, valid_parts, Decimal, DecimalModel};
use crate::decimal_matrix_3d::{axis_angle_model, matrix_view, DecimalMatrix3d, MatrixModel};
use crate::decimal_vector_3d::{vector_outcome, vector_view, DecimalVector3d, VectorModel};
use crate::sin_cos::{pimul2, two_pi};
use crate::violation::Violation;

verus! {

/// Mathematical model of a [`SimulatedBody`].
pub struct RecordModel {
    pub id: int,
    pub body: BodyModel,
    pub position: VectorModel,
    pub velocity: VectorModel,
    pub orientation: MatrixModel,
    pub parent: Option<int>,
    pub satellites: Seq<int>,
}

/// Mathematical model of a [`Simulation`]: its records in the order in which
/// they are held, and the id that the next body gets.
pub struct SimulationModel {
    pub records: Seq<RecordModel>,
    pub next_id: int,
}

/// Index of the first record from `from` on that carries `id`.
pub open spec fn find_from(rs: Seq<RecordModel>, id: int, from: int) -> Option<int>
    decreases rs.len() - from,
{
    if from < 0 || from >= rs.len() {
        None
    } else if rs[from].id == id {
        Some(from)
    } else {
        find_from(rs, id, from + 1)
    }
}

/// Index of the first record that carries `id`.
pub open spec fn find(rs: Seq<RecordModel>, id: int) -> Option<int> {
    find_from(rs, id, 0)
}

/// What a search by id finds is the first record from `from` on with that id.
pub proof fn lemma_find_from(rs: Seq<RecordModel>, id: int, from: int)
    requires
        0 <= from,
    ensures
        match find_from(rs, id, from) {
            Some(j) => from <= j < rs.len() && rs[j].id == id && forall|t: int|
                from <= t < j ==> (#[trigger] rs[t]).id != id,
            None => forall|t: int| from <= t < rs.len() ==> (#[trigger] rs[t]).id != id,
        },
    decreases rs.len() - from,
{
    if from < rs.len() && rs[from].id != id {
        lemma_find_from(rs, id, from + 1);
    }
}

/// Index of the first record from `from` on whose body is called `name`.
pub open spec fn find_named_from(rs: Seq<RecordModel>, name: Seq<char>, from: int) -> Option<int>
    decreases rs.len() - from,
{
    if from < 0 || from >= rs.len() {
        None
    } else if rs[from].body.name == name {
        Some(from)
    } else {
        find_named_from(rs, name, from + 1)
    }
}

/// Index of the first record whose body is called `name`.
pub open spec fn find_named(rs: Seq<RecordModel>, name: Seq<char>) -> Option<int> {
    find_named_from(rs, name, 0)
}

/// The record that a body gets when it enters the simulation: at rest in the
/// origin, not turned.
pub open spec fn fresh(body: BodyModel, id: int, parent: Option<int>, satellites: Seq<int>)
    -> RecordModel {
    RecordModel {
        id,
        body,
        position: VectorModel::zero(),
        velocity: VectorModel::zero(),
        orientation: MatrixModel::identity(),
        parent,
        satellites,
    }
}

/// The records of a tree of bodies whose root gets `id`: ids go to the bodies
/// in pre-order (a body before the bodies below it, these in their order),
/// records are held in post-order (a body after the bodies below it).
pub open spec fn flat(body: BodyModel, parent: Option<int>, id: int) -> Seq<RecordModel>
    decreases body,
{
    let n = body.satellites.len() as int;
    flat_list(body.satellites, n, id).push(
        fresh(body, id, parent, child_ids(body.satellites, n, id)),
    )
}

/// The records of the first `upto` trees of `list`, all below the body
/// `owner`, whose id they follow.
pub open spec fn flat_list(list: Seq<BodyModel>, upto: int, owner: int) -> Seq<RecordModel>
    decreases list, upto,
{
    if 0 < upto <= list.len() {
        flat_list(list, upto - 1, owner) + flat(
            list[upto - 1],
            Some(owner),
            owner + 1 + BodyModel::count(list, upto - 1),
        )
    } else {
        Seq::empty()
    }
}

/// The ids of the roots of the first `upto` trees of `list` below `owner`.
pub open spec fn child_ids(list: Seq<BodyModel>, upto: int, owner: int) -> Seq<int>
    decreases upto,
{
    if 0 < upto <= list.len() {
        child_ids(list, upto - 1, owner).push(owner + 1 + BodyModel::count(list, upto - 1))
    } else {
        Seq::empty()
    }
}

/// The ancestors of the record at index `i`, nearest first, as indices.
pub open spec fn ancestors(rs: Seq<RecordModel>, i: int) -> Seq<int>
    decreases
            if 0 <= i < rs.len() {
                rs[i].id
            } else {
                0
            },
{
    if 0 <= i < rs.len() {
        match rs[i].parent {
            Some(p) => match find(rs, p) {
                Some(j) => if 0 <= rs[j].id < rs[i].id {
                    seq![j] + ancestors(rs, j)
                } else {
                    Seq::empty()
                },
                None => Seq::empty(),
            },
            None => Seq::empty(),
        }
    } else {
        Seq::empty()
    }
}

/// What the satellites from number `k` on of the record at index `i` bring
/// to its descendants, as indices: each satellite that is found, followed by
/// its own descendants.
pub open spec fn below(rs: Seq<RecordModel>, bound: int, i: int, k: int) -> Seq<int>
    decreases
            if 0 <= i < rs.len() {
                bound - rs[i].id
            } else {
                0
            },
            if 0 <= i < rs.len() {
                rs[i].satellites.len() - k
            } else {
                0
            },
{
    if 0 <= i < rs.len() && 0 <= k < rs[i].satellites.len() {
        let rest = below(rs, bound, i, k + 1);
        match find(rs, rs[i].satellites[k]) {
            Some(j) => if rs[i].id < rs[j].id < bound {
                seq![j] + below(rs, bound, j, 0) + rest
            } else {
                rest
            },
            None => rest,
        }
    } else {
        Seq::empty()
    }
}

/// The digits of the gravitational constant.
pub open spec fn gravity_digits() -> Seq<u64> {
    seq![6, 6, 7, 4, 0, 8]
}

/// The gravitational constant, `0.0000000000667408`.
pub open spec fn gravity() -> DecimalModel {
    DecimalModel { significand: digits_value(gravity_digits()) as int, exponent: -16, precision: 17 }
}

/// The angle `2π * frac(time / period)` that a motion of the given period
/// has reached at `time`.
pub open spec fn phase_angle(time: DecimalModel, period: DecimalModel) -> Option<DecimalModel> {
    match time.over(period) {
        Some(turns) => match turns.fraction() {
            Some(progression) => two_pi().times(progression),
            None => None,
        },
        None => None,
    }
}

/// The rotation about `axis` that a motion of the given period has reached
/// at `time`.
pub open spec fn phase_rotation(time: DecimalModel, period: DecimalModel, axis: VectorModel)
    -> Option<MatrixModel> {
    match phase_angle(time, period) {
        Some(angle) => axis_angle_model(axis, angle),
        None => None,
    }
}

/// Where a body is at `time`: a static body at its place, an orbiting body
/// at `(radius, 0, 0)`, turned about the normal of its orbit by the phase
/// angle and moved to where its parent is held to be.
pub open spec fn body_position(rs: Seq<RecordModel>, time: DecimalModel, record: RecordModel)
    -> Result<VectorModel, Violation> {
    match record.body.dynamics {
        DynamicsModel::Static { position } => Ok(position),
        DynamicsModel::Orbiting { radius, period, normal } => match record.parent {
            None => Err(Violation::UnreachableParent),
            Some(p) => match find(rs, p) {
                None => Err(Violation::UnreachableParent),
                Some(j) => {
                    let start = VectorModel {
                        x: radius,
                        y: DecimalModel::zero(),
                        z: DecimalModel::zero(),
                    };
                    match phase_rotation(time, period, normal) {
                        None => Err(Violation::Unrepresentable),
                        Some(rotation) => match rotation.apply(start) {
                            None => Err(Violation::Unrepresentable),
                            Some(offset) => match offset.plus(rs[j].position) {
                                None => Err(Violation::Unrepresentable),
                                Some(position) => Ok(position),
                            },
                        },
                    }
                },
            },
        },
    }
}

/// How a body is turned at `time`: about its axis, by the phase angle of
/// its spin.
pub open spec fn body_orientation(time: DecimalModel, record: RecordModel) -> Option<MatrixModel> {
    phase_rotation(time, record.body.rotation_period, record.body.rotation_axis)
}

/// The record at index `i` brought to `time`: its position, its velocity as
/// the way made since one time unit before, and its orientation.
#[verifier::opaque]
pub open spec fn advanced(rs: Seq<RecordModel>, time: DecimalModel, i: int) -> Result<
    RecordModel,
    Violation,
> {
    let record = rs[i];
    match body_position(rs, time, record) {
        Err(e) => Err(e),
        Ok(position) => match time.minus(DecimalModel::one()) {
            None => Err(Violation::Unrepresentable),
            Some(before) => match body_position(rs, before, record) {
                Err(e) => Err(e),
                Ok(earlier) => match position.minus(earlier) {
                    None => Err(Violation::Unrepresentable),
                    Some(velocity) => match body_orientation(time, record) {
                        None => Err(Violation::Unrepresentable),
                        Some(orientation) => Ok(
                            RecordModel { position, velocity, orientation, ..record },
                        ),
                    },
                },
            },
        },
    }
}

/// The records after the bodies at the indices `schedule[from..]` have been
/// brought to `time` one after the other, and the violation that stopped
/// the pass, if one did.
pub open spec fn run(rs: Seq<RecordModel>, time: DecimalModel, schedule: Seq<int>, from: int) -> (
    Seq<RecordModel>,
    Option<Violation>,
)
    decreases schedule.len() - from,
{
    if 0 <= from < schedule.len() {
        match advanced(rs, time, schedule[from]) {
            Err(e) => (rs, Some(e)),
            Ok(record) => run(rs.update(schedule[from], record), time, schedule, from + 1),
        }
    } else {
        (rs, None)
    }
}

/// The nearest to `point` of the static bodies from index `i` on, given the
/// nearest so far and its distance; a later body wins only by a strictly
/// smaller distance.
pub open spec fn nearest_static(
    rs: Seq<RecordModel>,
    point: VectorModel,
    i: int,
    best: Option<(int, DecimalModel)>,
) -> Result<Option<(int, DecimalModel)>, Violation>
    decreases rs.len() - i,
{
    if 0 <= i < rs.len() {
        if rs[i].body.dynamics is Static {
            match rs[i].position.distance_to(point) {
                None => Err(Violation::Unrepresentable),
                Some(d) => nearest_static(rs, point, i + 1, closer(best, i, d)),
            }
        } else {
            nearest_static(rs, point, i + 1, best)
        }
    } else {
        Ok(best)
    }
}

/// The nearest so far after the body at index `i`, at distance `d`, has
/// been looked at.
pub open spec fn closer(best: Option<(int, DecimalModel)>, i: int, d: DecimalModel) -> Option<
    (int, DecimalModel),
> {
    match best {
        Some((_, least)) => if d.less_than(least) {
            Some((i, d))
        } else {
            best
        },
        None => Some((i, d)),
    }
}

/// The nearest to `point` of the bodies at the indices `order[from..]`,
/// given the nearest so far.
pub open spec fn nearest_of(
    rs: Seq<RecordModel>,
    point: VectorModel,
    order: Seq<int>,
    from: int,
    best: Option<(int, DecimalModel)>,
) -> Result<Option<(int, DecimalModel)>, Violation>
    decreases order.len() - from,
{
    if 0 <= from < order.len() {
        match rs[order[from]].position.distance_to(point) {
            None => Err(Violation::Unrepresentable),
            Some(d) => nearest_of(rs, point, order, from + 1, closer(best, order[from], d)),
        }
    } else {
        Ok(best)
    }
}

/// Index of the static body nearest to `point`.
pub open spec fn closest_static(rs: Seq<RecordModel>, point: VectorModel) -> Result<int, Violation> {
    match nearest_static(rs, point, 0, None) {
        Err(e) => Err(e),
        Ok(None) => Err(Violation::LookupMiss),
        Ok(Some((i, _))) => Ok(i),
    }
}

/// The pull of one body at `point`: the vector from the point to the body,
/// times `1/length * (G * mass / length^2)`.
pub open spec fn pull(record: RecordModel, point: VectorModel) -> Option<VectorModel> {
    match record.position.minus(point) {
        None => None,
        Some(relative) => match relative.length_squared() {
            None => None,
            Some(squared) => match squared.root() {
                None => None,
                Some(length) => match gravity().times(record.body.mass) {
                    None => None,
                    Some(gm) => match gm.over(squared) {
                        None => None,
                        Some(strength) => match DecimalModel::one().over(length) {
                            None => None,
                            Some(inverse) => match inverse.times(strength) {
                                None => None,
                                Some(factor) => relative.scaled_by(factor),
                            },
                        },
                    },
                },
            },
        },
    }
}

/// The sum so far plus the pulls of the bodies at the indices
/// `order[from..]`, added one after the other.
pub open spec fn pulls(
    rs: Seq<RecordModel>,
    point: VectorModel,
    order: Seq<int>,
    from: int,
    sum: VectorModel,
) -> Option<VectorModel>
    decreases order.len() - from,
{
    if 0 <= from < order.len() {
        match pull(rs[order[from]], point) {
            None => None,
            Some(p) => match sum.plus(p) {
                None => None,
                Some(next) => pulls(rs, point, order, from + 1, next),
            },
        }
    } else {
        Some(sum)
    }
}

/// Velocity, by its spin alone, of the point at `relative` from the centre
/// of a body: `(axis * (2π / period)) × relative`.
pub open spec fn spin_velocity(body: BodyModel, relative: VectorModel) -> Option<VectorModel> {
    match two_pi().over(body.rotation_period) {
        None => None,
        Some(rate) => match body.rotation_axis.scaled_by(rate) {
            None => None,
            Some(angular) => angular.cross(relative),
        },
    }
}

/// Whether `owner` is the parent of `child` and lists it as a satellite.
pub open spec fn lists(owner: RecordModel, child: RecordModel) -> bool {
    child.parent == Some(owner.id) && owner.satellites.contains(child.id)
}

/// Whether one of the records is the parent of `child` and lists it.
pub open spec fn listed_in(rs: Seq<RecordModel>, child: RecordModel) -> bool {
    exists|t: int| 0 <= t < rs.len() && #[trigger] lists(rs[t], child)
}

/// What holds of the records of the trees below one body `owner`: they
/// carry the ids from `lo` up to `hi`, one each; each has a parent, `owner`
/// or one of them, with a smaller id; satellites have larger ids and the
/// body that lists them as parent; the records with an id out of `roots`
/// have `owner` as parent; each is listed by its parent or is one of the
/// roots; and none lists a satellite twice.
pub open spec fn block(fs: Seq<RecordModel>, lo: int, hi: int, owner: int, roots: Seq<int>) -> bool {
    &&& fs.len() == hi - lo
    &&& forall|t: int| 0 <= t < fs.len() ==> lo <= (#[trigger] fs[t]).id < hi
    &&& forall|t: int, u: int| 0 <= t < u < fs.len() ==> (#[trigger] fs[t]).id != (#[trigger] fs[u]).id
    &&& forall|t: int|
        0 <= t < fs.len() ==> ((#[trigger] fs[t]).parent matches Some(p) && owner <= p < fs[t].id)
    &&& forall|t: int, k: int|
        0 <= t < fs.len() && 0 <= k < fs[t].satellites.len() ==> fs[t].id
            < #[trigger] fs[t].satellites[k] < hi
    &&& forall|t: int, k: int, u: int|
        0 <= t < fs.len() && 0 <= k < fs[t].satellites.len() && 0 <= u < fs.len() && fs[u].id
            == #[trigger] fs[t].satellites[k] ==> (#[trigger] fs[u]).parent == Some(fs[t].id)
    &&& forall|u: int|
        0 <= u < fs.len() && roots.contains((#[trigger] fs[u]).id) ==> fs[u].parent == Some(owner)
    &&& forall|u: int|
        0 <= u < fs.len() ==> roots.contains((#[trigger] fs[u]).id) || listed_in(fs, fs[u])
    &&& forall|t: int| 0 <= t < fs.len() ==> (#[trigger] fs[t]).satellites.no_duplicates()
}

/// The ids of the roots of the trees below a body follow the body's id, in
/// steps of the sizes of the trees.
pub proof fn lemma_child_ids(list: Seq<BodyModel>, upto: int, owner: int)
    requires
        0 <= upto <= list.len(),
    ensures
        child_ids(list, upto, owner).len() == upto,
        forall|c: int|
            0 <= c < upto ==> (#[trigger] child_ids(list, upto, owner)[c]) == owner + 1
                + BodyModel::count(list, c),
        forall|c: int|
            0 <= c < upto ==> owner < (#[trigger] child_ids(list, upto, owner)[c]) < owner + 1
                + BodyModel::count(list, upto),
        child_ids(list, upto, owner).no_duplicates(),
    decreases upto,
{
    if upto > 0 {
        lemma_child_ids(list, upto - 1, owner);
        let ids = child_ids(list, upto, owner);
        assert forall|c: int, d: int| 0 <= c < upto && 0 <= d < upto && c != d implies ids[c]
            != ids[d] by {
            if c < d {
                lemma_count_monotonic(list, c + 1, d);
                assert(BodyModel::count(list, c + 1) == BodyModel::count(list, c) + list[c].size());
            } else {
                lemma_count_monotonic(list, d + 1, c);
                assert(BodyModel::count(list, d + 1) == BodyModel::count(list, d) + list[d].size());
            }
        }
        assert forall|c: int| 0 <= c < upto implies owner < (#[trigger] child_ids(
            list,
            upto,
            owner,
        )[c]) < owner + 1 + BodyModel::count(list, upto) by {
            lemma_count_monotonic(list, c + 1, upto);
            assert(BodyModel::count(list, c + 1) == BodyModel::count(list, c) + list[c].size());
            assert(list[c].size() >= 1);
        }
    }
}

/// The records of the trees below a body form a block.
pub proof fn lemma_flat_list(list: Seq<BodyModel>, upto: int, owner: int)
    requires
        0 <= upto <= list.len(),
    ensures
        block(
            flat_list(list, upto, owner),
            owner + 1,
            owner + 1 + BodyModel::count(list, upto),
            owner,
            child_ids(list, upto, owner),
        ),
    decreases list, upto,
{
    let fs = flat_list(list, upto, owner);
    let roots = child_ids(list, upto, owner);
    let lo = owner + 1;
    let hi = owner + 1 + BodyModel::count(list, upto);
    if upto == 0 {
        assert(fs.len() == 0);
    } else {
        let body = list[upto - 1];
        let n = body.satellites.len() as int;
        let base = owner + 1 + BodyModel::count(list, upto - 1);
        let front = flat_list(list, upto - 1, owner);
        let front_roots = child_ids(list, upto - 1, owner);
        let inner = flat_list(body.satellites, n, base);
        let inner_roots = child_ids(body.satellites, n, base);
        let root = fresh(body, base, Some(owner), inner_roots);
        let tree = flat(body, Some(owner), base);
        lemma_flat_list(list, upto - 1, owner);
        lemma_flat_list(body.satellites, n, base);
        lemma_child_ids(list, upto, owner);
        lemma_child_ids(list, upto - 1, owner);
        lemma_child_ids(body.satellites, n, base);
        assert(tree == inner.push(root));
        assert(fs == front + tree);
        assert(roots == front_roots.push(base));
        assert(hi == base + body.size());
        assert(body.size() == 1 + BodyModel::count(body.satellites, n));
        let a = front.len() as int;
        let b = inner.len() as int;
        assert(fs.len() == a + b + 1);
        assert(forall|t: int| 0 <= t < a ==> fs[t] == front[t]);
        assert(forall|t: int| a <= t < a + b ==> fs[t] == inner[t - a]);
        assert(fs[a + b] == root);
        assert forall|t: int| 0 <= t < fs.len() implies lo <= (#[trigger] fs[t]).id < hi by {
            if t < a {
                assert(fs[t] == front[t]);
            } else if t < a + b {
                assert(fs[t] == inner[t - a]);
            }
        }
        assert forall|t: int, u: int| 0 <= t < u < fs.len() implies (#[trigger] fs[t]).id != (
        #[trigger] fs[u]).id by {
            if u < a {
                assert(fs[t] == front[t] && fs[u] == front[u]);
            } else if t < a {
                assert(fs[t] == front[t]);
                if u < a + b {
                    assert(fs[u] == inner[u - a]);
                }
            } else if u < a + b {
                assert(fs[t] == inner[t - a] && fs[u] == inner[u - a]);
            } else {
                assert(fs[t] == inner[t - a]);
            }
        }
        assert forall|t: int| 0 <= t < fs.len() implies ((#[trigger] fs[t]).parent matches Some(p)
            && owner <= p < fs[t].id) by {
            if t < a {
                assert(fs[t] == front[t]);
            } else if t < a + b {
                assert(fs[t] == inner[t - a]);
            }
        }
        assert forall|t: int, k: int|
            0 <= t < fs.len() && 0 <= k < fs[t].satellites.len() implies fs[t].id
            < #[trigger] fs[t].satellites[k] < hi by {
            if t < a {
                assert(fs[t] == front[t]);
                assert(front[t].id < front[t].satellites[k] < base);
            } else if t < a + b {
                assert(fs[t] == inner[t - a]);
                assert(inner[t - a].id < inner[t - a].satellites[k] < hi);
            } else {
                assert(fs[t].satellites[k] == inner_roots[k]);
            }
        }
        assert forall|t: int, k: int, u: int|
            0 <= t < fs.len() && 0 <= k < fs[t].satellites.len() && 0 <= u < fs.len() && fs[u].id
                == #[trigger] fs[t].satellites[k] implies (#[trigger] fs[u]).parent == Some(
            fs[t].id,
        ) by {
            if t < a {
                assert(fs[t] == front[t]);
                assert(front[t].id < front[t].satellites[k] < base);
                if u < a {
                    assert(fs[u] == front[u]);
                } else if u < a + b {
                    assert(fs[u] == inner[u - a]);
                }
            } else if t < a + b {
                assert(fs[t] == inner[t - a]);
                assert(inner[t - a].id < inner[t - a].satellites[k]);
                if u < a {
                    assert(fs[u] == front[u]);
                } else if u < a + b {
                    assert(fs[u] == inner[u - a]);
                }
            } else {
                assert(fs[t].satellites[k] == inner_roots[k]);
                assert(inner_roots.contains(inner_roots[k]));
                if u < a {
                    assert(fs[u] == front[u]);
                } else if u < a + b {
                    assert(fs[u] == inner[u - a]);
                }
            }
        }
        assert forall|u: int| 0 <= u < fs.len() && roots.contains((#[trigger] fs[u]).id) implies fs[u].parent
            == Some(owner) by {
            let c = choose|c: int| 0 <= c < roots.len() && roots[c] == fs[u].id;
            if u < a {
                assert(fs[u] == front[u]);
                assert(c < upto - 1);
                assert(front_roots[c] == roots[c]);
                assert(front_roots.contains(front[u].id));
            } else if u < a + b {
                assert(fs[u] == inner[u - a]);
                if c < upto - 1 {
                    assert(front_roots[c] == roots[c]);
                    lemma_count_monotonic(list, c + 1, upto - 1);
                }
            }
        }
        assert forall|u: int| 0 <= u < fs.len() implies roots.contains((#[trigger] fs[u]).id)
            || listed_in(fs, fs[u]) by {
            if u < a {
                assert(fs[u] == front[u]);
                if front_roots.contains(front[u].id) {
                    let c = choose|c: int| 0 <= c < front_roots.len() && front_roots[c] == front[u].id;
                    assert(roots[c] == front_roots[c]);
                } else {
                    let t = choose|t: int| 0 <= t < front.len() && #[trigger] lists(front[t], front[u]);
                    assert(lists(fs[t], fs[u]));
                }
            } else if u < a + b {
                assert(fs[u] == inner[u - a]);
                if inner_roots.contains(inner[u - a].id) {
                    assert(lists(fs[a + b], fs[u]));
                } else {
                    let t = choose|t: int| 0 <= t < inner.len() && #[trigger] lists(inner[t], inner[u - a]);
                    assert(fs[t + a] == inner[t]);
                    assert(lists(fs[t + a], fs[u]));
                }
            } else {
                assert(roots[upto - 1] == base);
            }
        }
        assert forall|t: int| 0 <= t < fs.len() implies (#[trigger] fs[t]).satellites.no_duplicates() by {
            if t < a {
                assert(fs[t] == front[t]);
            } else if t < a + b {
                assert(fs[t] == inner[t - a]);
            } else {
                assert(fs[t].satellites == inner_roots);
            }
        }
    }
}

/// Records that form a wider simulation once the records of a tree stand
/// behind them.
#[verifier::rlimit(40)]
pub proof fn lemma_flat_wf(m: SimulationModel, body: BodyModel, parent: Option<int>)
    requires
        m.wf(),
        m.next_id + body.size() <= i32::MAX,
        parent matches Some(p) ==> 0 <= p < m.next_id,
    ensures
        (SimulationModel {
            records: m.records + flat(body, parent, m.next_id),
            next_id: m.next_id + body.size(),
        }).wf(),
        m.linked() && parent is None ==> (SimulationModel {
            records: m.records + flat(body, parent, m.next_id),
            next_id: m.next_id + body.size(),
        }).linked(),
{
    let id = m.next_id;
    let n = body.satellites.len() as int;
    let inner = flat_list(body.satellites, n, id);
    let roots = child_ids(body.satellites, n, id);
    let root = fresh(body, id, parent, roots);
    lemma_flat_list(body.satellites, n, id);
    lemma_child_ids(body.satellites, n, id);
    let old_rs = m.records;
    let rs = old_rs + flat(body, parent, id);
    let next = id + body.size();
    let a = old_rs.len() as int;
    let b = inner.len() as int;
    assert(flat(body, parent, id) == inner.push(root));
    assert(rs.len() == a + b + 1);
    assert(forall|t: int| 0 <= t < a ==> rs[t] == old_rs[t]);
    assert(forall|t: int| a <= t < a + b ==> rs[t] == inner[t - a]);
    assert(rs[a + b] == root);
    assert(body.size() == 1 + BodyModel::count(body.satellites, n));
    assert forall|t: int| 0 <= t < rs.len() implies 0 <= (#[trigger] rs[t]).id < next by {
        if t < a {
            assert(rs[t] == old_rs[t]);
        } else if t < a + b {
            assert(rs[t] == inner[t - a]);
        }
    }
    assert forall|t: int, u: int| 0 <= t < u < rs.len() implies (#[trigger] rs[t]).id != (
    #[trigger] rs[u]).id by {
        if u < a {
            assert(rs[t] == old_rs[t] && rs[u] == old_rs[u]);
        } else if t < a {
            assert(rs[t] == old_rs[t]);
            if u < a + b {
                assert(rs[u] == inner[u - a]);
            }
        } else if u < a + b {
            assert(rs[t] == inner[t - a] && rs[u] == inner[u - a]);
        } else {
            assert(rs[t] == inner[t - a]);
        }
    }
    assert forall|t: int| 0 <= t < rs.len() implies ((#[trigger] rs[t]).parent matches Some(p)
        ==> 0 <= p < rs[t].id) by {
        if t < a {
            assert(rs[t] == old_rs[t]);
        } else if t < a + b {
            assert(rs[t] == inner[t - a]);
        }
    }
    assert forall|t: int, k: int|
        0 <= t < rs.len() && 0 <= k < rs[t].satellites.len() implies rs[t].id
        < #[trigger] rs[t].satellites[k] < next by {
        if t < a {
            assert(rs[t] == old_rs[t]);
            assert(old_rs[t].id < old_rs[t].satellites[k] < id);
        } else if t < a + b {
            assert(rs[t] == inner[t - a]);
            assert(inner[t - a].id < inner[t - a].satellites[k] < next);
        } else {
            assert(rs[t].satellites[k] == roots[k]);
        }
    }
    assert forall|t: int, k: int, u: int|
        0 <= t < rs.len() && 0 <= k < rs[t].satellites.len() && 0 <= u < rs.len() && rs[u].id
            == #[trigger] rs[t].satellites[k] implies (#[trigger] rs[u]).parent == Some(
        rs[t].id,
    ) by {
        if t < a {
            assert(rs[t] == old_rs[t]);
            assert(old_rs[t].id < old_rs[t].satellites[k] < id);
            if u < a {
                assert(rs[u] == old_rs[u]);
            } else if u < a + b {
                assert(rs[u] == inner[u - a]);
            }
        } else if t < a + b {
            assert(rs[t] == inner[t - a]);
            assert(inner[t - a].id < inner[t - a].satellites[k]);
            if u < a {
                assert(rs[u] == old_rs[u]);
            } else if u < a + b {
                assert(rs[u] == inner[u - a]);
            }
        } else {
            assert(rs[t].satellites[k] == roots[k]);
            assert(roots.contains(roots[k]));
            if u < a {
                assert(rs[u] == old_rs[u]);
            } else if u < a + b {
                assert(rs[u] == inner[u - a]);
            }
        }
    }
    assert forall|t: int| 0 <= t < rs.len() implies (#[trigger] rs[t]).satellites.no_duplicates() by {
        if t < a {
            assert(rs[t] == old_rs[t]);
        } else if t < a + b {
            assert(rs[t] == inner[t - a]);
        } else {
            assert(rs[t].satellites == roots);
        }
    }
    if m.linked() && parent is None {
        assert forall|u: int| 0 <= u < rs.len() && (#[trigger] rs[u]).parent is Some implies listed_in(
            rs,
            rs[u],
        ) by {
            if u < a {
                assert(rs[u] == old_rs[u]);
                let t = choose|t: int| 0 <= t < old_rs.len() && #[trigger] lists(old_rs[t], old_rs[u]);
                assert(lists(rs[t], rs[u]));
            } else if u < a + b {
                assert(rs[u] == inner[u - a]);
                if roots.contains(inner[u - a].id) {
                    assert(lists(rs[a + b], rs[u]));
                } else {
                    let t = choose|t: int| 0 <= t < inner.len() && #[trigger] lists(inner[t], inner[u - a]);
                    assert(rs[t + a] == inner[t]);
                    assert(lists(rs[t + a], rs[u]));
                }
            }
        }
    }
}

impl SimulationModel {
    /// Whether every record carries an id that was handed out, a parent with
    /// a smaller id than its own, if any, and satellites with larger ids
    /// that were handed out.
    pub open spec fn in_range(self) -> bool {
        let rs = self.records;
        &&& forall|i: int| 0 <= i < rs.len() ==> 0 <= (#[trigger] rs[i]).id < self.next_id
        &&& forall|i: int|
            0 <= i < rs.len() ==> ((#[trigger] rs[i]).parent matches Some(p) ==> 0 <= p < rs[i].id)
        &&& forall|i: int, k: int|
            0 <= i < rs.len() && 0 <= k < rs[i].satellites.len() ==> rs[i].id
                < #[trigger] rs[i].satellites[k] < self.next_id
    }

    /// Whether no id is carried by two records.
    pub open spec fn distinct(self) -> bool {
        let rs = self.records;
        forall|i: int, j: int| 0 <= i < j < rs.len() ==> (#[trigger] rs[i]).id != (#[trigger] rs[j]).id
    }

    /// Whether every record that a body lists as satellite has that body as
    /// parent.
    pub open spec fn adopted(self) -> bool {
        let rs = self.records;
        forall|i: int, k: int, j: int|
            0 <= i < rs.len() && 0 <= k < rs[i].satellites.len() && 0 <= j < rs.len() && rs[j].id
                == #[trigger] rs[i].satellites[k] ==> (#[trigger] rs[j]).parent == Some(rs[i].id)
    }

    /// Whether no record lists a satellite twice.
    pub open spec fn listed_once(self) -> bool {
        forall|i: int|
            0 <= i < self.records.len() ==> (#[trigger] self.records[i]).satellites.no_duplicates()
    }

    /// The invariant of a simulation: ids are dense from zero and carried by
    /// one record each, a parent has a smaller id than its child, and a
    /// satellite has a larger id than, and as parent, the body that lists
    /// it, which lists it once.
    pub open spec fn wf(self) -> bool {
        &&& self.next_id == self.records.len() <= i32::MAX
        &&& self.in_range()
        &&& self.distinct()
        &&& self.adopted()
        &&& self.listed_once()
    }

    /// Every body that has a parent is listed among the satellites of the
    /// body with that id. This holds as long as every tree has entered the
    /// simulation without a parent for its root.
    pub open spec fn linked(self) -> bool {
        forall|u: int|
            0 <= u < self.records.len() && (#[trigger] self.records[u]).parent is Some
                ==> listed_in(self.records, self.records[u])
    }

    /// The descendants of the record at index `i` in depth-first pre-order,
    /// as indices.
    pub open spec fn descendants(self, i: int) -> Seq<int> {
        below(self.records, self.next_id, i, 0)
    }

    /// The ancestors of the record at index `i`, nearest first, as indices.
    pub open spec fn ancestors(self, i: int) -> Seq<int> {
        ancestors(self.records, i)
    }

    /// The bodies that an update brings to its time, in their order: for
    /// each static body from index `i` on, its descendants.
    pub open spec fn plan_from(self, i: int) -> Seq<int>
        decreases self.records.len() - i,
    {
        if 0 <= i < self.records.len() {
            if self.records[i].body.dynamics is Static {
                self.descendants(i) + self.plan_from(i + 1)
            } else {
                self.plan_from(i + 1)
            }
        } else {
            Seq::empty()
        }
    }

    /// The bodies that an update brings to its time, in their order.
    pub open spec fn plan(self) -> Seq<int> {
        self.plan_from(0)
    }

    /// The records after an update to `time`, and the violation that
    /// stopped it, if one did.
    pub open spec fn updated(self, time: DecimalModel) -> (Seq<RecordModel>, Option<Violation>) {
        run(self.records, time, self.plan(), 0)
    }

    /// The local system of the static body at index `i`: its descendants,
    /// then the body itself.
    pub open spec fn local_system(self, i: int) -> Seq<int> {
        self.descendants(i).push(i)
    }

    /// Index of the body nearest to `point` in the local system of the
    /// static body nearest to it: the nearest of that body's descendants,
    /// or the body itself if it has none.
    pub open spec fn closest_body(self, point: VectorModel) -> Result<int, Violation> {
        match closest_static(self.records, point) {
            Err(e) => Err(e),
            Ok(i) => match nearest_of(self.records, point, self.descendants(i), 0, None) {
                Err(e) => Err(e),
                Ok(None) => Ok(i),
                Ok(Some((j, _))) => Ok(j),
            },
        }
    }

    /// The pulls at `point` of the bodies of the local system of the static
    /// body nearest to it, summed up from zero.
    pub open spec fn gravity_flux(self, point: VectorModel) -> Result<VectorModel, Violation> {
        match closest_static(self.records, point) {
            Err(e) => Err(e),
            Ok(i) => match pulls(self.records, point, self.local_system(i), 0, VectorModel::zero()) {
                None => Err(Violation::Unrepresentable),
                Some(flux) => Ok(flux),
            },
        }
    }

    /// The velocity of a point on the body called `name`.
    pub open spec fn surface_velocity(self, name: Seq<char>, relative: VectorModel) -> Result<
        VectorModel,
        Violation,
    > {
        match find_named(self.records, name) {
            None => Err(Violation::LookupMiss),
            Some(i) => match spin_velocity(self.records[i].body, relative) {
                None => Err(Violation::Unrepresentable),
                Some(v) => Ok(v),
            },
        }
    }
}

/// A body in the simulation: its description and where it is now.
#[derive(Debug)]
pub struct SimulatedBody {
    id: i32,
    pub body: Body,
    pub position: DecimalVector3d,
    pub velocity: DecimalVector3d,
    pub orientation: DecimalMatrix3d,
    parent: Option<i32>,
    satellites: Vec<i32>,
}

/// The model of an id that may be missing.
pub open spec fn id_model(id: Option<i32>) -> Option<int> {
    match id {
        Some(p) => Some(p as int),
        None => None,
    }
}

impl View for SimulatedBody {
    type V = RecordModel;

    closed spec fn view(&self) -> RecordModel {
        RecordModel {
            id: self.id as int,
            body: self.body@,
            position: self.position@,
            velocity: self.velocity@,
            orientation: self.orientation@,
            parent: id_model(self.parent),
            satellites: self.satellites@.map_values(|s: i32| s as int),
        }
    }
}

/// The simulation: the bodies, flat, and the counter that hands out ids.
#[derive(Debug)]
pub struct Simulation {
    pub bodies: Vec<SimulatedBody>,
    id_counter: i32,
}

impl View for Simulation {
    type V = SimulationModel;

    closed spec fn view(&self) -> SimulationModel {
        SimulationModel {
            records: self.bodies@.map_values(|b: SimulatedBody| b@),
            next_id: self.id_counter as int,
        }
    }
}

/// The bodies at the given indices, one for one.
pub open spec fn picked(bodies: Seq<SimulatedBody>, indices: Seq<int>, out: Seq<&SimulatedBody>)
    -> bool {
    &&& out.len() == indices.len()
    &&& forall|t: int|
        0 <= t < out.len() ==> 0 <= (#[trigger] indices[t]) < bodies.len() && *out[t]
            == bodies[indices[t]]
}

impl Clone for SimulatedBody {
    fn clone(&self) -> (r: SimulatedBody)
        ensures
            r@ == self@,
    {
        let satellites = self.satellites.clone();
        assert(satellites@ =~= self.satellites@);
        SimulatedBody {
            id: self.id,
            body: self.body.clone(),
            position: self.position.clone(),
            velocity: self.velocity.clone(),
            orientation: self.orientation.clone(),
            parent: self.parent,
            satellites,
        }
    }
}

impl SimulatedBody {
    /// The description of the body.
    pub fn body(&self) -> (r: &Body)
        ensures
            r@ == self@.body,
    {
        &self.body
    }

    /// Where the body is held to be.
    pub fn position(&self) -> (r: &DecimalVector3d)
        ensures
            r@ == self@.position,
    {
        &self.position
    }

    /// The way that the body made in the last time unit before the time to
    /// which it was brought.
    pub fn velocity(&self) -> (r: &DecimalVector3d)
        ensures
            r@ == self@.velocity,
    {
        &self.velocity
    }

    /// How the body is turned.
    pub fn orientation(&self) -> (r: &DecimalMatrix3d)
        ensures
            r@ == self@.orientation,
    {
        &self.orientation
    }

    /// The id that the body got when it entered the simulation.
    pub fn id(&self) -> (r: i32)
        ensures
            r == self@.id,
    {
        self.id
    }

    /// The id of the body that this one was put below, if any.
    pub fn parent(&self) -> (r: Option<i32>)
        ensures
            id_model(r) == self@.parent,
    {
        self.parent
    }
}

impl Simulation {
    /// The invariant that every method keeps; it can only be lost by
    /// changing `bodies` from outside.
    pub open spec fn wf(&self) -> bool {
        self@.wf()
    }

    /// The bodies in the order in which they are held; their models are
    /// the records of the simulation's model.
    pub closed spec fn stored(&self) -> Seq<SimulatedBody> {
        self.bodies@
    }

    /// Whether `body` is one of the records of the simulation.
    pub open spec fn holds(&self, body: &SimulatedBody) -> bool {
        find(self@.records, body@.id) matches Some(i) && self.stored()[i] == *body
    }

    /// The index at which a record of the simulation is held.
    pub open spec fn slot(&self, body: &SimulatedBody) -> int {
        find(self@.records, body@.id).unwrap()
    }

    /// Whether `r`, if it is there, is one of the records of the simulation.
    pub open spec fn holds_some(&self, r: Option<&SimulatedBody>) -> bool {
        match r {
            Some(body) => self.holds(body),
            None => true,
        }
    }

    /// Whether `r`, if it is a body, is one of the records of the
    /// simulation.
    pub open spec fn holds_ok(&self, r: Result<&SimulatedBody, Violation>) -> bool {
        match r {
            Ok(body) => self.holds(body),
            Err(_) => true,
        }
    }

    /// The records of the model are the models of the bodies held, one for
    /// one.
    pub proof fn lemma_stored(&self)
        ensures
            self.stored().len() == self@.records.len(),
            forall|i: int|
                0 <= i < self.stored().len() ==> (#[trigger] self.stored()[i])@
                    == self@.records[i],
    {
    }

    /// In a well-formed simulation every body held is one of its records,
    /// at the index at which it is held.
    pub proof fn lemma_stored_holds(&self, i: int)
        requires
            self.wf(),
            0 <= i < self.stored().len(),
        ensures
            self.holds(&self.stored()[i]),
            self.slot(&self.stored()[i]) == i,
    {
        lemma_find_from(self@.records, self@.records[i].id, 0);
    }

    /// The bodies in the order in which they are held.
    pub fn bodies(&self) -> (r: &Vec<SimulatedBody>)
        ensures
            r@ == self.stored(),
    {
        &self.bodies
    }

    /// A simulation without bodies.
    pub fn new() -> (r: Self)
        ensures
            r@.records.len() == 0,
            r@.next_id == 0,
            r.wf(),
    {
        Simulation { bodies: vec![], id_counter: 0 }
    }

    /// Whether ids, parents and satellites are in their ranges.
    fn check_ranges(&self) -> (r: bool)
        ensures
            r == self@.in_range(),
    {
        let ghost rs = self@.records;
        let mut i: usize = 0;
        while i < self.bodies.len()
            invariant
                rs == self@.records,
                0 <= i <= self.bodies.len(),
                forall|a: int| 0 <= a < i ==> 0 <= (#[trigger] rs[a]).id < self@.next_id,
                forall|a: int|
                    0 <= a < i ==> ((#[trigger] rs[a]).parent matches Some(p) ==> 0 <= p
                        < rs[a].id),
                forall|a: int, k: int|
                    0 <= a < i && 0 <= k < rs[a].satellites.len() ==> rs[a].id
                        < #[trigger] rs[a].satellites[k] < self@.next_id,
            decreases self.bodies.len() - i,
        {
            let body = &self.bodies[i];
            assert(rs[i as int] == body@);
            if body.id < 0 || body.id >= self.id_counter {
                return false;
            }
            match body.parent {
                Some(p) => {
                    if p < 0 || p >= body.id {
                        return false;
                    }
                },
                None => {},
            }
            let mut k: usize = 0;
            while k < body.satellites.len()
                invariant
                    rs == self@.records,
                    i < self.bodies.len(),
                    *body == self.bodies[i as int],
                    rs[i as int] == body@,
                    0 <= k <= body.satellites.len(),
                    forall|b: int|
                        0 <= b < k ==> rs[i as int].id < #[trigger] rs[i as int].satellites[b]
                            < self@.next_id,
                decreases body.satellites.len() - k,
            {
                assert(rs[i as int].satellites[k as int] == body.satellites[k as int]);
                if body.satellites[k] <= body.id || body.satellites[k] >= self.id_counter {
                    return false;
                }
                k += 1;
            }
            i += 1;
        }
        true
    }

    /// Whether no id is carried by two bodies.
    fn check_distinct(&self) -> (r: bool)
        ensures
            r == self@.distinct(),
    {
        let ghost rs = self@.records;
        let mut i: usize = 0;
        while i < self.bodies.len()
            invariant
                rs == self@.records,
                0 <= i <= self.bodies.len(),
                forall|a: int, b: int|
                    0 <= a < i && a < b < rs.len() ==> (#[trigger] rs[a]).id != (#[trigger] rs[b]).id,
            decreases self.bodies.len() - i,
        {
            let mut j: usize = i + 1;
            while j < self.bodies.len()
                invariant
                    rs == self@.records,
                    i < j <= self.bodies.len(),
                    forall|b: int| i < b < j ==> rs[i as int].id != (#[trigger] rs[b]).id,
                decreases self.bodies.len() - j,
            {
                if self.bodies[i].id == self.bodies[j].id {
                    assert(rs[i as int].id == rs[j as int].id);
                    return false;
                }
                j += 1;
            }
            i += 1;
        }
        true
    }

    /// Whether the body with the given id, if there is one, has the body at
    /// index `i` as parent.
    fn check_adopted_one(&self, i: usize, id: i32) -> (r: bool)
        requires
            i < self.bodies.len(),
        ensures
            r == forall|j: int|
                0 <= j < self@.records.len() && (#[trigger] self@.records[j]).id == id
                    ==> self@.records[j].parent == Some(self@.records[i as int].id),
    {
        let ghost rs = self@.records;
        let owner = self.bodies[i].id;
        let mut j: usize = 0;
        while j < self.bodies.len()
            invariant
                rs == self@.records,
                i < self.bodies.len(),
                owner == rs[i as int].id,
                0 <= j <= self.bodies.len(),
                forall|b: int|
                    0 <= b < j && (#[trigger] rs[b]).id == id ==> rs[b].parent == Some(
                        rs[i as int].id,
                    ),
            decreases self.bodies.len() - j,
        {
            if self.bodies[j].id == id {
                let adopted = match self.bodies[j].parent {
                    Some(p) => p == owner,
                    None => false,
                };
                if !adopted {
                    assert(rs[j as int].id == id && rs[j as int].parent != Some(rs[i as int].id));
                    return false;
                }
            }
            j += 1;
        }
        true
    }

    /// Whether every body that is listed as a satellite has the body that
    /// lists it as parent.
    fn check_adopted(&self) -> (r: bool)
        ensures
            r == self@.adopted(),
    {
        let ghost rs = self@.records;
        let mut i: usize = 0;
        while i < self.bodies.len()
            invariant
                rs == self@.records,
                0 <= i <= self.bodies.len(),
                forall|a: int, k: int, j: int|
                    0 <= a < i && 0 <= k < rs[a].satellites.len() && 0 <= j < rs.len() && rs[j].id
                        == #[trigger] rs[a].satellites[k] ==> (#[trigger] rs[j]).parent == Some(
                        rs[a].id,
                    ),
            decreases self.bodies.len() - i,
        {
            let mut k: usize = 0;
            while k < self.bodies[i].satellites.len()
                invariant
                    rs == self@.records,
                    i < self.bodies.len(),
                    0 <= k <= self.bodies[i as int].satellites.len(),
                    forall|b: int, j: int|
                        0 <= b < k && 0 <= j < rs.len() && rs[j].id
                            == #[trigger] rs[i as int].satellites[b] ==> (#[trigger] rs[j]).parent
                            == Some(rs[i as int].id),
                decreases self.bodies[i as int].satellites.len() - k,
            {
                assert(rs[i as int].satellites[k as int] == self.bodies[i as int].satellites[k as int]);
                if !self.check_adopted_one(i, self.bodies[i].satellites[k]) {
                    let ghost j = choose|j: int|
                        0 <= j < rs.len() && (#[trigger] rs[j]).id == rs[i as int].satellites[k as int]
                            && rs[j].parent != Some(rs[i as int].id);
                    assert(rs[j].id == rs[i as int].satellites[k as int]);
                    return false;
                }
                k += 1;
            }
            i += 1;
        }
        true
    }

    /// Whether no body lists a satellite twice.
    fn check_listed_once(&self) -> (r: bool)
        ensures
            r == self@.listed_once(),
    {
        let ghost rs = self@.records;
        let mut i: usize = 0;
        while i < self.bodies.len()
            invariant
                rs == self@.records,
                0 <= i <= self.bodies.len(),
                forall|a: int| 0 <= a < i ==> (#[trigger] rs[a]).satellites.no_duplicates(),
            decreases self.bodies.len() - i,
        {
            let ghost sats = rs[i as int].satellites;
            let list = &self.bodies[i].satellites;
            assert(sats.len() == list.len());
            let mut k: usize = 0;
            while k < list.len()
                invariant
                    rs == self@.records,
                    i < self.bodies.len(),
                    sats == rs[i as int].satellites,
                    *list == self.bodies[i as int].satellites,
                    sats.len() == list.len(),
                    0 <= k <= list.len(),
                    forall|c: int, d: int| 0 <= c < k && c < d < sats.len() ==> sats[c] != sats[d],
                decreases list.len() - k,
            {
                let mut l: usize = k + 1;
                while l < list.len()
                    invariant
                        rs == self@.records,
                        i < self.bodies.len(),
                        sats == rs[i as int].satellites,
                        *list == self.bodies[i as int].satellites,
                        sats.len() == list.len(),
                        k < l <= list.len(),
                        forall|d: int| k < d < l ==> sats[k as int] != sats[d],
                    decreases list.len() - l,
                {
                    assert(sats[k as int] == list[k as int] && sats[l as int] == list[l as int]);
                    if list[k] == list[l] {
                        assert(!sats.no_duplicates());
                        return false;
                    }
                    l += 1;
                }
                k += 1;
            }
            assert(sats.no_duplicates());
            i += 1;
        }
        true
    }

    /// Whether the invariant holds. It does after any sequence of calls of
    /// the methods; once `bodies` has been changed from outside, this tells
    /// whether the simulation can still be used.
    pub fn is_consistent(&self) -> (r: bool)
        ensures
            r == self.wf(),
    {
        self.id_counter >= 0 && self.bodies.len() == self.id_counter as usize
            && self.check_ranges() && self.check_distinct() && self.check_adopted()
            && self.check_listed_once()
    }

    /// Index of the first body called `name`.
    fn index_by_name(&self, name: &str) -> (r: Option<usize>)
        ensures
            id_model_u(r) == find_named(self@.records, name@),
            r matches Some(i) ==> i < self.bodies.len(),
    {
        let wanted = String::from_str(name);
        let mut i: usize = 0;
        while i < self.bodies.len()
            invariant
                wanted@ == name@,
                0 <= i <= self.bodies.len(),
                find_named(self@.records, name@) == find_named_from(self@.records, name@, i as int),
            decreases self.bodies.len() - i,
        {
            if self.bodies[i].body.name == wanted {
                return Some(i);
            }
            i += 1;
        }
        None
    }

    /// Index of the first body that carries `id`.
    fn index_by_id(&self, id: i32) -> (r: Option<usize>)
        ensures
            id_model_u(r) == find(self@.records, id as int),
            r matches Some(i) ==> i < self.bodies.len() && self@.records[i as int].id == id,
    {
        let mut i: usize = 0;
        while i < self.bodies.len()
            invariant
                0 <= i <= self.bodies.len(),
                find(self@.records, id as int) == find_from(self@.records, id as int, i as int),
            decreases self.bodies.len() - i,
        {
            if self.bodies[i].id == id {
                return Some(i);
            }
            i += 1;
        }
        None
    }

    /// The first body called `name`, if there is one.
    pub fn get_body_by_name(&self, name: &str) -> (r: Option<&SimulatedBody>)
        ensures
            match find_named(self@.records, name@) {
                Some(i) => 0 <= i < self.stored().len() && r == Some(&self.stored()[i]),
                None => r is None,
            },
            self.wf() ==> self.holds_some(r),
    {
        match self.index_by_name(name) {
            Some(i) => {
                proof {
                    if self.wf() {
                        self.lemma_stored_holds(i as int);
                    }
                }
                Some(&self.bodies[i])
            },
            None => None,
        }
    }

    /// The first body that carries `id`, if there is one.
    pub fn get_body_by_id(&self, id: i32) -> (r: Option<&SimulatedBody>)
        ensures
            match find(self@.records, id as int) {
                Some(i) => 0 <= i < self.stored().len() && r == Some(&self.stored()[i]),
                None => r is None,
            },
            self.wf() ==> self.holds_some(r),
    {
        match self.index_by_id(id) {
            Some(i) => {
                proof {
                    if self.wf() {
                        self.lemma_stored_holds(i as int);
                    }
                }
                Some(&self.bodies[i])
            },
            None => None,
        }
    }

    /// Puts the tree below `body` behind the records held, ids counting on
    /// from the counter.
    fn insert(&mut self, body: &Body, parent: Option<i32>) -> (id: i32)
        requires
            0 <= old(self).id_counter,
            old(self).id_counter + body@.size() <= i32::MAX,
        ensures
            id == old(self).id_counter,
            final(self).id_counter == old(self).id_counter + body@.size(),
            final(self)@.records == old(self)@.records + flat(
                body@,
                id_model(parent),
                id as int,
            ),
        decreases body,
    {
        let new_id = self.id_counter;
        self.id_counter += 1;
        let mut satellites: Vec<i32> = Vec::new();
        let mut i: usize = 0;
        proof {
            lemma_models(body.satellites@, 0);
            assert(self@.records =~= old(self)@.records + flat_list(
                body@.satellites,
                0,
                new_id as int,
            ));
            assert(satellites@.map_values(|s: i32| s as int) =~= child_ids(
                body@.satellites,
                0,
                new_id as int,
            ));
        }
        while i < body.satellites.len()
            invariant
                0 <= i <= body.satellites.len(),
                0 <= new_id == old(self).id_counter,
                new_id + body@.size() <= i32::MAX,
                body@.satellites.len() == body.satellites.len(),
                forall|k: int|
                    0 <= k < body.satellites.len() ==> (#[trigger] body@.satellites[k])
                        == body.satellites[k]@,
                self.id_counter == new_id + 1 + BodyModel::count(body@.satellites, i as int),
                self@.records == old(self)@.records + flat_list(
                    body@.satellites,
                    i as int,
                    new_id as int,
                ),
                satellites@.map_values(|s: i32| s as int) == child_ids(
                    body@.satellites,
                    i as int,
                    new_id as int,
                ),
            decreases body.satellites.len() - i,
        {
            proof {
                lemma_count_monotonic(
                    body@.satellites,
                    i as int + 1,
                    body@.satellites.len() as int,
                );
            }
            let ghost before = self@.records;
            let child = self.insert(&body.satellites[i], Some(new_id));
            let ghost ids = satellites@.map_values(|s: i32| s as int);
            satellites.push(child);
            i += 1;
            proof {
                assert(self@.records =~= old(self)@.records + flat_list(
                    body@.satellites,
                    i as int,
                    new_id as int,
                ));
                assert(satellites@.map_values(|s: i32| s as int) =~= ids.push(child as int));
            }
        }
        let ghost before = self@.records;
        let record = SimulatedBody {
            id: new_id,
            parent,
            satellites,
            body: body.clone(),
            position: DecimalVector3d::zero(),
            velocity: DecimalVector3d::zero(),
            orientation: DecimalMatrix3d::identity(),
        };
        let ghost model = record@;
        self.bodies.push(record);
        proof {
            assert(self@.records =~= before.push(model));
            assert(self@.records =~= old(self)@.records + flat(
                body@,
                id_model(parent),
                new_id as int,
            ));
        }
        new_id
    }

    /// Takes the tree of bodies below `body` into the simulation, the root
    /// as a satellite-to-be of the body `parent` (which is not told of it),
    /// and returns the root's id. Ids go to the bodies in pre-order.
    pub fn add_hierarchy(&mut self, body: Body, parent: Option<i32>) -> (id: i32)
        requires
            old(self).wf(),
            old(self)@.next_id + body@.size() <= i32::MAX,
            parent matches Some(p) ==> 0 <= p < old(self)@.next_id,
        ensures
            id == old(self)@.next_id,
            final(self)@.next_id == old(self)@.next_id + body@.size(),
            final(self)@.records == old(self)@.records + flat(
                body@,
                id_model(parent),
                id as int,
            ),
            final(self).wf(),
            old(self)@.linked() && parent is None ==> final(self)@.linked(),
    {
        proof {
            lemma_flat_wf(old(self)@, body@, id_model(parent));
        }
        let id = self.insert(&body, parent);
        assert(self@ == (SimulationModel {
            records: old(self)@.records + flat(body@, id_model(parent), id as int),
            next_id: old(self)@.next_id + body@.size(),
        }));
        id
    }

    /// The indices of the descendants of the body at index `i`.
    fn descend(&self, i: usize) -> (r: Vec<usize>)
        requires
            self.wf(),
            i < self.bodies.len(),
        ensures
            r@.map_values(|t: usize| t as int) == self@.descendants(i as int),
            forall|t: int| 0 <= t < r.len() ==> (#[trigger] r[t]) < self.bodies.len(),
        decreases self.id_counter - self.bodies[i as int].id,
    {
        let mut r: Vec<usize> = Vec::new();
        let mut k: usize = 0;
        let ghost rs = self@.records;
        let ghost bound = self@.next_id;
        assert(r@.map_values(|t: usize| t as int) + below(rs, bound, i as int, 0) =~= below(
            rs,
            bound,
            i as int,
            0,
        ));
        while k < self.bodies[i].satellites.len()
            invariant
                self.wf(),
                i < self.bodies.len(),
                rs == self@.records,
                bound == self@.next_id,
                0 <= k <= self.bodies[i as int].satellites.len(),
                forall|t: int| 0 <= t < r.len() ==> (#[trigger] r[t]) < self.bodies.len(),
                r@.map_values(|t: usize| t as int) + below(rs, bound, i as int, k as int) == below(
                    rs,
                    bound,
                    i as int,
                    0,
                ),
            decreases self.bodies[i as int].satellites.len() - k,
        {
            let ghost done = r@.map_values(|t: usize| t as int);
            assert(rs[i as int].satellites[k as int] == self.bodies[i as int].satellites[k as int]);
            match self.index_by_id(self.bodies[i].satellites[k]) {
                Some(j) => {
                    assert(rs[j as int].id == rs[i as int].satellites[k as int]);
                    let mut sub = self.descend(j);
                    let ghost sub_model = sub@.map_values(|t: usize| t as int);
                    r.push(j);
                    r.append(&mut sub);
                    assert(r@.map_values(|t: usize| t as int) =~= done + seq![j as int]
                        + sub_model);
                    assert(r@.map_values(|t: usize| t as int) + below(
                        rs,
                        bound,
                        i as int,
                        k as int + 1,
                    ) =~= done + below(rs, bound, i as int, k as int));
                },
                None => {},
            }
            k += 1;
        }
        assert(r@.map_values(|t: usize| t as int) + Seq::<int>::empty() =~= r@.map_values(
            |t: usize| t as int,
        ));
        r
    }

    /// The indices of the ancestors of the body at index `i`, nearest first.
    fn ascend(&self, i: usize) -> (r: Vec<usize>)
        requires
            self.wf(),
            i < self.bodies.len(),
        ensures
            r@.map_values(|t: usize| t as int) == self@.ancestors(i as int),
            forall|t: int| 0 <= t < r.len() ==> (#[trigger] r[t]) < self.bodies.len(),
    {
        let mut r: Vec<usize> = Vec::new();
        let mut at: usize = i;
        let ghost rs = self@.records;
        assert(r@.map_values(|t: usize| t as int) + ancestors(rs, i as int) =~= ancestors(
            rs,
            i as int,
        ));
        loop
            invariant
                self.wf(),
                at < self.bodies.len(),
                rs == self@.records,
                forall|t: int| 0 <= t < r.len() ==> (#[trigger] r[t]) < self.bodies.len(),
                r@.map_values(|t: usize| t as int) + ancestors(rs, at as int) == ancestors(
                    rs,
                    i as int,
                ),
            ensures
                rs == self@.records,
                forall|t: int| 0 <= t < r.len() ==> (#[trigger] r[t]) < self.bodies.len(),
                r@.map_values(|t: usize| t as int) == ancestors(rs, i as int),
            decreases self.bodies[at as int].id,
        {
            let ghost done = r@.map_values(|t: usize| t as int);
            let next = match self.bodies[at].parent {
                Some(p) => self.index_by_id(p),
                None => None,
            };
            match next {
                Some(j) => {
                    assert(rs[j as int].id == rs[at as int].parent.unwrap());
                    r.push(j);
                    assert(r@.map_values(|t: usize| t as int) =~= done + seq![j as int]);
                    assert(r@.map_values(|t: usize| t as int) + ancestors(rs, j as int) =~= done
                        + ancestors(rs, at as int));
                    at = j;
                },
                None => {
                    assert(ancestors(rs, at as int) =~= Seq::<int>::empty());
                    assert(done + Seq::<int>::empty() =~= done);
                    break ;
                },
            }
        }
        r
    }

    /// The bodies at the given indices.
    fn pick(&self, indices: &Vec<usize>) -> (r: Vec<&SimulatedBody>)
        requires
            forall|t: int| 0 <= t < indices.len() ==> (#[trigger] indices[t]) < self.bodies.len(),
        ensures
            picked(self.stored(), indices@.map_values(|t: usize| t as int), r@),
    {
        let mut r: Vec<&SimulatedBody> = Vec::new();
        let mut t: usize = 0;
        while t < indices.len()
            invariant
                0 <= t <= indices.len(),
                r.len() == t,
                forall|u: int| 0 <= u < indices.len() ==> (#[trigger] indices[u]) < self.bodies.len(),
                forall|u: int| 0 <= u < t ==> *(#[trigger] r[u]) == self.bodies[indices[u] as int],
            decreases indices.len() - t,
        {
            r.push(&self.bodies[indices[t]]);
            t += 1;
        }
        r
    }

    /// The ancestors of `body`, nearest first; none for a root.
    pub fn resolve_hierarchy_up(&self, body: &SimulatedBody) -> (r: Vec<&SimulatedBody>)
        requires
            self.wf(),
            self.holds(body),
        ensures
            picked(self.stored(), self@.ancestors(self.slot(body)), r@),
    {
        match self.index_by_id(body.id) {
            Some(i) => {
                let indices = self.ascend(i);
                self.pick(&indices)
            },
            None => Vec::new(),
        }
    }

    /// The descendants of `body` in depth-first pre-order: each satellite in
    /// its turn, followed at once by its own descendants.
    pub fn resolve_hierarchy_down(&self, body: &SimulatedBody) -> (r: Vec<&SimulatedBody>)
        requires
            self.wf(),
            self.holds(body),
        ensures
            picked(self.stored(), self@.descendants(self.slot(body)), r@),
    {
        match self.index_by_id(body.id) {
            Some(i) => {
                let indices = self.descend(i);
                self.pick(&indices)
            },
            None => Vec::new(),
        }
    }

    /// The gravitational constant.
    fn gravitational_constant() -> (r: Decimal)
        ensures
            r@ == gravity(),
    {
        let digits: Vec<u64> = vec![6, 6, 7, 4, 0, 8];
        assert(digits@ =~= gravity_digits());
        assert(valid_parts(false, digits@, -16, 17));
        match Decimal::from_digits(false, digits, -16, 17) {
            Some(r) => r,
            None => Decimal::zero(),
        }
    }

    /// The rotation about `axis` that a motion of the given period has
    /// reached at `time`.
    fn phase_rotation(time: &Decimal, period: &Decimal, axis: &DecimalVector3d) -> (r: Option<
        DecimalMatrix3d,
    >)
        ensures
            matrix_view(r) == phase_rotation(time@, period@, axis@),
    {
        let progression = time.div(period)?.fract()?;
        let angle = pimul2().mul(&progression)?;
        DecimalMatrix3d::axis_angle(axis, angle)
    }

    /// Where `body` is at `time`, going by where its parent is held to be.
    pub fn get_body_position(&self, time: &Decimal, body: &SimulatedBody) -> (r: Result<
        DecimalVector3d,
        Violation,
    >)
        ensures
            vector_outcome(r) == body_position(self@.records, time@, body@),
    {
        match &body.body.dynamics {
            BodyDynamics::Static(dynamics) => Ok(dynamics.position.clone()),
            BodyDynamics::Orbiting(dynamics) => {
                let parent = match body.parent {
                    Some(p) => match self.index_by_id(p) {
                        Some(j) => &self.bodies[j],
                        None => {
                            return Err(Violation::UnreachableParent);
                        },
                    },
                    None => {
                        return Err(Violation::UnreachableParent);
                    },
                };
                let start = DecimalVector3d::new(
                    dynamics.orbit_radius.clone(),
                    Decimal::zero(),
                    Decimal::zero(),
                );
                let rotation = match Self::phase_rotation(
                    time,
                    &dynamics.orbit_period,
                    &dynamics.orbit_plane_normal,
                ) {
                    Some(rotation) => rotation,
                    None => {
                        return Err(Violation::Unrepresentable);
                    },
                };
                let offset = match rotation.apply(&start) {
                    Some(offset) => offset,
                    None => {
                        return Err(Violation::Unrepresentable);
                    },
                };
                match offset.add(&parent.position) {
                    Some(position) => Ok(position),
                    None => Err(Violation::Unrepresentable),
                }
            },
        }
    }

    /// How `body` is turned at `time`.
    pub fn get_body_orientation(&self, time: &Decimal, body: &SimulatedBody) -> (r: Option<
        DecimalMatrix3d,
    >)
        ensures
            matrix_view(r) == body_orientation(time@, body@),
    {
        Self::phase_rotation(time, &body.body.rotation_period, &body.body.rotation_axis)
    }

    /// Indices of the bodies that an update brings to its time.
    fn schedule(&self) -> (r: Vec<usize>)
        requires
            self.wf(),
        ensures
            r@.map_values(|t: usize| t as int) == self@.plan(),
            forall|t: int| 0 <= t < r.len() ==> (#[trigger] r[t]) < self.bodies.len(),
    {
        let mut r: Vec<usize> = Vec::new();
        let mut i: usize = 0;
        let ghost model = self@;
        assert(r@.map_values(|t: usize| t as int) + model.plan_from(0) =~= model.plan());
        while i < self.bodies.len()
            invariant
                self.wf(),
                model == self@,
                0 <= i <= self.bodies.len(),
                forall|t: int| 0 <= t < r.len() ==> (#[trigger] r[t]) < self.bodies.len(),
                r@.map_values(|t: usize| t as int) + model.plan_from(i as int) == model.plan(),
            decreases self.bodies.len() - i,
        {
            let ghost done = r@.map_values(|t: usize| t as int);
            match &self.bodies[i].body.dynamics {
                BodyDynamics::Static(_) => {
                    let mut hierarchy = self.descend(i);
                    let ghost added = hierarchy@.map_values(|t: usize| t as int);
                    r.append(&mut hierarchy);
                    assert(r@.map_values(|t: usize| t as int) =~= done + added);
                    assert(r@.map_values(|t: usize| t as int) + model.plan_from(i as int + 1)
                        =~= done + model.plan_from(i as int));
                },
                BodyDynamics::Orbiting(_) => {},
            }
            i += 1;
        }
        assert(r@.map_values(|t: usize| t as int) + Seq::<int>::empty() =~= r@.map_values(
            |t: usize| t as int,
        ));
        r
    }

    /// Brings the body at index `i` to `time`.
    fn advance(&mut self, time: &Decimal, i: usize) -> (r: Result<(), Violation>)
        requires
            old(self).wf(),
            i < old(self).bodies.len(),
        ensures
            final(self).wf(),
            final(self)@.next_id == old(self)@.next_id,
            match advanced(old(self)@.records, time@, i as int) {
                Ok(record) => r is Ok && final(self)@.records == old(self)@.records.update(
                    i as int,
                    record,
                ),
                Err(e) => r == Err::<(), Violation>(e) && final(self)@.records == old(
                    self,
                )@.records,
            },
    {
        proof {
            reveal(advanced);
        }
        let position = self.get_body_position(time, &self.bodies[i])?;
        let before = match time.sub(&Decimal::one()) {
            Some(before) => before,
            None => {
                return Err(Violation::Unrepresentable);
            },
        };
        let earlier = self.get_body_position(&before, &self.bodies[i])?;
        let velocity = match position.sub(&earlier) {
            Some(velocity) => velocity,
            None => {
                return Err(Violation::Unrepresentable);
            },
        };
        let orientation = match self.get_body_orientation(time, &self.bodies[i]) {
            Some(orientation) => orientation,
            None => {
                return Err(Violation::Unrepresentable);
            },
        };
        let ghost record = RecordModel {
            position: position@,
            velocity: velocity@,
            orientation: orientation@,
            ..old(self)@.records[i as int]
        };
        self.bodies[i].position = position;
        self.bodies[i].velocity = velocity;
        self.bodies[i].orientation = orientation;
        proof {
            assert(self@.records =~= old(self)@.records.update(i as int, record));
            lemma_wf_update(old(self)@, i as int, record);
        }
        Ok(())
    }

    /// Brings every body below a static body to `time`: position, velocity
    /// and orientation are written together, a body after the body it
    /// orbits. Static bodies themselves, and bodies below none, are left as
    /// they are. A violation ends the pass where it occurs.
    pub fn update(&mut self, time: Decimal) -> (r: Result<(), Violation>)
        requires
            old(self).wf(),
        ensures
            final(self).wf(),
            final(self)@.next_id == old(self)@.next_id,
            final(self)@.records == old(self)@.updated(time@).0,
            match old(self)@.updated(time@).1 {
                Some(e) => r == Err::<(), Violation>(e),
                None => r is Ok,
            },
    {
        let schedule = self.schedule();
        let ghost plan = old(self)@.plan();
        let mut t: usize = 0;
        while t < schedule.len()
            invariant
                self.wf(),
                self.bodies.len() == old(self).bodies.len(),
                self@.next_id == old(self)@.next_id,
                0 <= t <= schedule.len(),
                plan == schedule@.map_values(|t: usize| t as int),
                plan == old(self)@.plan(),
                forall|u: int|
                    0 <= u < schedule.len() ==> (#[trigger] schedule[u]) < self.bodies.len(),
                run(self@.records, time@, plan, t as int) == old(self)@.updated(time@),
            decreases schedule.len() - t,
        {
            assert(plan[t as int] == schedule[t as int]);
            self.advance(&time, schedule[t])?;
            t += 1;
        }
        Ok(())
    }

    /// Index of the static body nearest to `point`.
    fn nearest_static_index(&self, point: &DecimalVector3d) -> (r: Result<usize, Violation>)
        ensures
            match closest_static(self@.records, point@) {
                Ok(i) => r == Ok::<usize, Violation>(i as usize) && 0 <= i < self.bodies.len()
                    && self@.records[i].body.dynamics is Static,
                Err(e) => r == Err::<usize, Violation>(e),
            },
    {
        let mut best: Option<(usize, Decimal)> = None;
        let mut i: usize = 0;
        let ghost rs = self@.records;
        while i < self.bodies.len()
            invariant
                rs == self@.records,
                0 <= i <= self.bodies.len(),
                best matches Some(b) ==> b.0 < self.bodies.len() && rs[b.0 as int].body.dynamics is Static,
                nearest_static(rs, point@, 0, None) == nearest_static(
                    rs,
                    point@,
                    i as int,
                    best_model(best),
                ),
            decreases self.bodies.len() - i,
        {
            match &self.bodies[i].body.dynamics {
                BodyDynamics::Static(_) => {
                    let distance = match self.bodies[i].position.distance_to(point) {
                        Some(distance) => distance,
                        None => {
                            return Err(Violation::Unrepresentable);
                        },
                    };
                    let wins = match &best {
                        Some(b) => distance.lt(&b.1),
                        None => true,
                    };
                    if wins {
                        best = Some((i, distance));
                    }
                },
                BodyDynamics::Orbiting(_) => {},
            }
            i += 1;
        }
        match best {
            Some(b) => Ok(b.0),
            None => Err(Violation::LookupMiss),
        }
    }

    /// Index of the nearest to `point` of the bodies at the given indices.
    fn nearest_index(&self, point: &DecimalVector3d, order: &Vec<usize>) -> (r: Result<
        Option<usize>,
        Violation,
    >)
        requires
            forall|t: int| 0 <= t < order.len() ==> (#[trigger] order[t]) < self.bodies.len(),
        ensures
            match nearest_of(
                self@.records,
                point@,
                order@.map_values(|t: usize| t as int),
                0,
                None,
            ) {
                Ok(Some(b)) => r == Ok::<Option<usize>, Violation>(Some(b.0 as usize)) && 0 <= b.0
                    < self.bodies.len() && order@.map_values(|t: usize| t as int).contains(b.0),
                Ok(None) => r == Ok::<Option<usize>, Violation>(None) && order.len() == 0,
                Err(e) => r == Err::<Option<usize>, Violation>(e),
            },
    {
        let mut best: Option<(usize, Decimal)> = None;
        let mut t: usize = 0;
        let ghost rs = self@.records;
        let ghost indices = order@.map_values(|t: usize| t as int);
        while t < order.len()
            invariant
                rs == self@.records,
                indices == order@.map_values(|t: usize| t as int),
                0 <= t <= order.len(),
                forall|u: int| 0 <= u < order.len() ==> (#[trigger] order[u]) < self.bodies.len(),
                best matches Some(b) ==> b.0 < self.bodies.len() && indices.contains(b.0 as int),
                best is None ==> t == 0,
                nearest_of(rs, point@, indices, 0, None) == nearest_of(
                    rs,
                    point@,
                    indices,
                    t as int,
                    best_model(best),
                ),
            decreases order.len() - t,
        {
            let i = order[t];
            assert(indices[t as int] == i);
            let distance = match self.bodies[i].position.distance_to(point) {
                Some(distance) => distance,
                None => {
                    return Err(Violation::Unrepresentable);
                },
            };
            let wins = match &best {
                Some(b) => distance.lt(&b.1),
                None => true,
            };
            if wins {
                best = Some((i, distance));
            }
            t += 1;
        }
        match best {
            Some(b) => Ok(Some(b.0)),
            None => Ok(None),
        }
    }

    /// The static body nearest to `point`; of several at the least
    /// distance, the one held first. Without a static body the lookup
    /// misses.
    pub fn find_closest_static(&self, point: &DecimalVector3d) -> (r: Result<
        &SimulatedBody,
        Violation,
    >)
        ensures
            match closest_static(self@.records, point@) {
                Ok(i) => 0 <= i < self.stored().len() && r == Ok::<&SimulatedBody, Violation>(
                    &self.stored()[i],
                ) && self@.records[i].body.dynamics is Static,
                Err(e) => r == Err::<&SimulatedBody, Violation>(e),
            },
            self.wf() ==> self.holds_ok(r),
    {
        let i = self.nearest_static_index(point)?;
        proof {
            if self.wf() {
                self.lemma_stored_holds(i as int);
            }
        }
        Ok(&self.bodies[i])
    }

    /// The body nearest to `point` among the descendants of the static body
    /// nearest to it, or that static body itself if it has none.
    pub fn find_closest_body(&self, point: &DecimalVector3d) -> (r: Result<
        &SimulatedBody,
        Violation,
    >)
        requires
            self.wf(),
        ensures
            match self@.closest_body(point@) {
                Ok(i) => 0 <= i < self.stored().len() && r == Ok::<&SimulatedBody, Violation>(
                    &self.stored()[i],
                ),
                Err(e) => r == Err::<&SimulatedBody, Violation>(e),
            },
            self.holds_ok(r),
    {
        let i = self.nearest_static_index(point)?;
        let down_hierarchy = self.descend(i);
        match self.nearest_index(point, &down_hierarchy)? {
            Some(j) => {
                proof {
                    self.lemma_stored_holds(j as int);
                }
                Ok(&self.bodies[j])
            },
            None => {
                proof {
                    self.lemma_stored_holds(i as int);
                }
                Ok(&self.bodies[i])
            },
        }
    }

    /// The pull of the body at index `i` at `point`.
    fn pull(&self, i: usize, point: &DecimalVector3d) -> (r: Option<DecimalVector3d>)
        requires
            i < self.bodies.len(),
        ensures
            vector_view(r) == pull(self@.records[i as int], point@),
    {
        let body = &self.bodies[i];
        let relative = body.position.sub(point)?;
        let length_squared = relative.length_squared()?;
        let length = length_squared.sqrt()?;
        let strength = Self::gravitational_constant().mul(&body.body.mass)?.div(&length_squared)?;
        let factor = Decimal::one().div(&length)?.mul(&strength)?;
        relative.mul_scalar(&factor)
    }

    /// The gravitational field at `point`, summed over the static body
    /// nearest to it and that body's descendants. Bodies of other systems
    /// do not count.
    pub fn calculate_gravity_flux(&self, point: &DecimalVector3d) -> (r: Result<
        DecimalVector3d,
        Violation,
    >)
        requires
            self.wf(),
        ensures
            vector_outcome(r) == self@.gravity_flux(point@),
    {
        let anchor = self.nearest_static_index(point)?;
        let mut hierarchy = self.descend(anchor);
        let ghost down = hierarchy@.map_values(|t: usize| t as int);
        hierarchy.push(anchor);
        let ghost order = hierarchy@.map_values(|t: usize| t as int);
        assert(order =~= self@.local_system(anchor as int));
        let mut flux = DecimalVector3d::zero();
        let mut t: usize = 0;
        while t < hierarchy.len()
            invariant
                0 <= t <= hierarchy.len(),
                order == hierarchy@.map_values(|t: usize| t as int),
                forall|u: int|
                    0 <= u < hierarchy.len() ==> (#[trigger] hierarchy[u]) < self.bodies.len(),
                pulls(self@.records, point@, order, 0, VectorModel::zero()) == pulls(
                    self@.records,
                    point@,
                    order,
                    t as int,
                    flux@,
                ),
                closest_static(self@.records, point@) == Ok::<int, Violation>(anchor as int),
                order == self@.local_system(anchor as int),
            decreases hierarchy.len() - t,
        {
            assert(order[t as int] == hierarchy[t as int]);
            let pull = match self.pull(hierarchy[t], point) {
                Some(pull) => pull,
                None => {
                    return Err(Violation::Unrepresentable);
                },
            };
            flux = match flux.add(&pull) {
                Some(flux) => flux,
                None => {
                    return Err(Violation::Unrepresentable);
                },
            };
            t += 1;
        }
        Ok(flux)
    }

    /// The velocity that its spin alone gives the point at `relative_point`
    /// from the centre of the body called `body_name`.
    pub fn get_surface_velocity(&self, body_name: &str, relative_point: &DecimalVector3d) -> (r:
        Result<DecimalVector3d, Violation>)
        ensures
            vector_outcome(r) == self@.surface_velocity(body_name@, relative_point@),
    {
        let body = match self.index_by_name(body_name) {
            Some(i) => &self.bodies[i],
            None => {
                return Err(Violation::LookupMiss);
            },
        };
        let axis = &body.body.rotation_axis;
        let angular_body_vel = match pimul2().div(&body.body.rotation_period) {
            Some(v) => v,
            None => {
                return Err(Violation::Unrepresentable);
            },
        };
        let angular_velocity_vector = match axis.mul_scalar(&angular_body_vel) {
            Some(v) => v,
            None => {
                return Err(Violation::Unrepresentable);
            },
        };
        match angular_velocity_vector.cross(relative_point) {
            Some(v) => Ok(v),
            None => Err(Violation::Unrepresentable),
        }
    }

    /// The body called `name`.
    pub fn get_body(&self, body_name: &str) -> (r: Result<&SimulatedBody, Violation>)
        ensures
            match find_named(self@.records, body_name@) {
                Some(i) => 0 <= i < self.stored().len() && r == Ok::<&SimulatedBody, Violation>(
                    &self.stored()[i],
                ),
                None => r == Err::<&SimulatedBody, Violation>(Violation::LookupMiss),
            },
            self.wf() ==> self.holds_ok(r),
    {
        match self.index_by_name(body_name) {
            Some(i) => {
                proof {
                    if self.wf() {
                        self.lemma_stored_holds(i as int);
                    }
                }
                Ok(&self.bodies[i])
            },
            None => Err(Violation::LookupMiss),
        }
    }
}

/// The model of the nearest body so far and its distance.
pub open spec fn best_model(best: Option<(usize, Decimal)>) -> Option<(int, DecimalModel)> {
    match best {
        Some(b) => Some((b.0 as int, b.1@)),
        None => None,
    }
}

/// A record may change where it is without harm to the invariant.
pub proof fn lemma_wf_update(m: SimulationModel, i: int, record: RecordModel)
    requires
        m.wf(),
        0 <= i < m.records.len(),
        record.id == m.records[i].id,
        record.parent == m.records[i].parent,
        record.satellites == m.records[i].satellites,
    ensures
        (SimulationModel { records: m.records.update(i, record), next_id: m.next_id }).wf(),
{
    let rs = m.records;
    let us = rs.update(i, record);
    assert forall|a: int| 0 <= a < us.len() implies 0 <= (#[trigger] us[a]).id < m.next_id by {
        assert(us[a].id == rs[a].id);
    }
    assert forall|a: int, b: int| 0 <= a < b < us.len() implies (#[trigger] us[a]).id != (
    #[trigger] us[b]).id by {
        assert(us[a].id == rs[a].id);
        assert(us[b].id == rs[b].id);
    }
    assert forall|a: int| 0 <= a < us.len() implies ((#[trigger] us[a]).parent matches Some(p)
        ==> 0 <= p < us[a].id) by {
        assert(us[a].id == rs[a].id && us[a].parent == rs[a].parent);
    }
    assert forall|a: int, k: int, b: int|
        0 <= a < us.len() && 0 <= k < us[a].satellites.len() && 0 <= b < us.len() && us[b].id
            == #[trigger] us[a].satellites[k] implies us[a].id < (#[trigger] us[b]).id
        && us[b].parent == Some(us[a].id) by {
        assert(us[a].id == rs[a].id && us[a].satellites == rs[a].satellites);
        assert(us[b].id == rs[b].id && us[b].parent == rs[b].parent);
        assert(rs[b].id == rs[a].satellites[k]);
    }
    assert forall|a: int| 0 <= a < us.len() implies (#[trigger] us[a]).satellites.no_duplicates() by {
        assert(us[a].satellites == rs[a].satellites);
    }
}

/// The model of an index that may be missing.
pub open spec fn id_model_u(i: Option<usize>) -> Option<int> {
    match i {
        Some(i) => Some(i as int),
        None => None,
    }
}

} // verus!
