//! The description of a body and of the bodies that orbit it.

use vstd::prelude::*;
use crate::decimal::{Decimal, DecimalModel};
use crate::decimal_vector_3d::{DecimalVector3d, VectorModel};

verus! {

/// A body that stays at one place.
#[derive(Debug)]
pub struct StaticBodyDynamics {
    pub position: DecimalVector3d,
}

/// A body on a circular orbit around its parent.
#[derive(Debug)]
pub struct OrbitingBodyDynamics {
    pub orbit_radius: Decimal,
    pub orbit_period: Decimal,
    pub orbit_plane_normal: DecimalVector3d,
}

/// How a body moves.
#[derive(Debug)]
pub enum BodyDynamics {
    Static(StaticBodyDynamics),
    Orbiting(OrbitingBodyDynamics),
}

/// A body as the caller describes it: its own properties and, in order, the
/// bodies that orbit it.
#[derive(Debug)]
pub struct Body {
    pub name: String,
    pub dynamics: BodyDynamics,
    pub mass: Decimal,
    pub satellites: Vec<Body>,
    pub rotation_axis: DecimalVector3d,
    pub rotation_period: Decimal,
}

/// Mathematical model of [`BodyDynamics`].
pub enum DynamicsModel {
    Static { position: VectorModel },
    Orbiting { radius: DecimalModel, period: DecimalModel, normal: VectorModel },
}

/// Mathematical model of a [`Body`] and of the bodies below it.
pub struct BodyModel {
    pub name: Seq<char>,
    pub dynamics: DynamicsModel,
    pub mass: DecimalModel,
    pub rotation_axis: VectorModel,
    pub rotation_period: DecimalModel,
    pub satellites: Seq<BodyModel>,
}

impl View for BodyDynamics {
    type V = DynamicsModel;

    open spec fn view(&self) -> DynamicsModel {
        match self {
            BodyDynamics::Static(d) => DynamicsModel::Static { position: d.position@ },
            BodyDynamics::Orbiting(d) => DynamicsModel::Orbiting {
                radius: d.orbit_radius@,
                period: d.orbit_period@,
                normal: d.orbit_plane_normal@,
            },
        }
    }
}

impl View for Body {
    type V = BodyModel;

    open spec fn view(&self) -> BodyModel
        decreases self,
    {
        BodyModel {
            name: self.name@,
            dynamics: self.dynamics@,
            mass: self.mass@,
            rotation_axis: self.rotation_axis@,
            rotation_period: self.rotation_period@,
            satellites: models(self.satellites@, 0),
        }
    }
}

/// The models of the bodies of `list` from index `from` on.
pub open spec fn models(list: Seq<Body>, from: int) -> Seq<BodyModel>
    decreases list, list.len() - from,
{
    if 0 <= from < list.len() {
        seq![list[from]@] + models(list, from + 1)
    } else {
        Seq::empty()
    }
}

/// The models of a list are the models of its bodies, one for one.
pub proof fn lemma_models(list: Seq<Body>, from: int)
    requires
        0 <= from <= list.len(),
    ensures
        models(list, from).len() == list.len() - from,
        forall|k: int| 0 <= k < list.len() - from ==> (#[trigger] models(list, from)[k]) == list[from + k]@,
    decreases list.len() - from,
{
    reveal_with_fuel(models, 2);
    if from < list.len() {
        lemma_models(list, from + 1);
        assert(models(list, from) == seq![list[from]@] + models(list, from + 1));
        assert forall|k: int| 0 <= k < list.len() - from implies (#[trigger] models(list, from)[k])
            == list[from + k]@ by {
            if k > 0 {
                assert(models(list, from)[k] == models(list, from + 1)[k - 1]);
            }
        }
    }
}

impl BodyModel {
    /// Number of bodies in the tree: the body itself and all below it.
    pub open spec fn size(self) -> nat
        decreases self,
    {
        1 + Self::count(self.satellites, self.satellites.len() as int)
    }

    /// Number of bodies in the trees of the first `upto` bodies of `list`.
    pub open spec fn count(list: Seq<BodyModel>, upto: int) -> nat
        decreases list, upto,
    {
        if 0 < upto <= list.len() {
            Self::count(list, upto - 1) + list[upto - 1].size()
        } else {
            0
        }
    }
}

/// A longer prefix of a list holds no fewer bodies.
pub proof fn lemma_count_monotonic(list: Seq<BodyModel>, a: int, b: int)
    requires
        0 <= a <= b <= list.len(),
    ensures
        BodyModel::count(list, a) <= BodyModel::count(list, b),
    decreases b - a,
{
    if a < b {
        lemma_count_monotonic(list, a, b - 1);
    }
}

impl Clone for StaticBodyDynamics {
    fn clone(&self) -> (r: StaticBodyDynamics)
        ensures
            r.position@ == self.position@,
    {
        StaticBodyDynamics { position: self.position.clone() }
    }
}

impl Clone for OrbitingBodyDynamics {
    fn clone(&self) -> (r: OrbitingBodyDynamics)
        ensures
            r.orbit_radius@ == self.orbit_radius@,
            r.orbit_period@ == self.orbit_period@,
            r.orbit_plane_normal@ == self.orbit_plane_normal@,
    {
        OrbitingBodyDynamics {
            orbit_radius: self.orbit_radius.clone(),
            orbit_period: self.orbit_period.clone(),
            orbit_plane_normal: self.orbit_plane_normal.clone(),
        }
    }
}

impl Clone for BodyDynamics {
    fn clone(&self) -> (r: BodyDynamics)
        ensures
            r@ == self@,
    {
        match self {
            BodyDynamics::Static(d) => BodyDynamics::Static(d.clone()),
            BodyDynamics::Orbiting(d) => BodyDynamics::Orbiting(d.clone()),
        }
    }
}

impl Body {
    /// A copy of the body and of all the bodies below it.
    pub fn duplicate(&self) -> (r: Body)
        ensures
            r@ == self@,
        decreases self,
    {
        let mut satellites: Vec<Body> = Vec::new();
        let mut i: usize = 0;
        while i < self.satellites.len()
            invariant
                0 <= i <= self.satellites.len(),
                satellites.len() == i,
                forall|j: int| 0 <= j < i ==> satellites[j]@ == self.satellites[j]@,
            decreases self.satellites.len() - i,
        {
            satellites.push(self.satellites[i].duplicate());
            i += 1;
        }
        let r = Body {
            name: self.name.clone(),
            dynamics: self.dynamics.clone(),
            mass: self.mass.clone(),
            satellites,
            rotation_axis: self.rotation_axis.clone(),
            rotation_period: self.rotation_period.clone(),
        };
        proof {
            lemma_models(r.satellites@, 0);
            lemma_models(self.satellites@, 0);
            assert(r@.satellites =~= self@.satellites);
        }
        r
    }
}

impl Clone for Body {
    fn clone(&self) -> (r: Body)
        ensures
            r@ == self@,
    {
        self.duplicate()
    }
}

} // verus!
