//! Three-component vectors of arbitrary-precision decimals.

use vstd::prelude::*;
use vstd::string::StringExecFns;
use crate::decimal::{
    decimal_text, decimal_view, kept_zero, opt_minus, opt_plus, opt_root, parsed, Decimal,
    DecimalModel,
};
use crate::violation::Violation;

verus! {

/// Mathematical model of a [`DecimalVector3d`].
pub struct VectorModel {
    pub x: DecimalModel,
    pub y: DecimalModel,
    pub z: DecimalModel,
}

/// A vector whose components may be missing is a vector only if all three
/// are there.
pub open spec fn gathered(
    x: Option<DecimalModel>,
    y: Option<DecimalModel>,
    z: Option<DecimalModel>,
) -> Option<VectorModel> {
    match (x, y, z) {
        (Some(x), Some(y), Some(z)) => Some(VectorModel { x, y, z }),
        _ => None,
    }
}

impl VectorModel {
    /// The vector of three zeros of unlimited precision.
    pub open spec fn zero() -> VectorModel {
        VectorModel { x: DecimalModel::zero(), y: DecimalModel::zero(), z: DecimalModel::zero() }
    }

    /// Whether all three components are zero.
    pub open spec fn is_zero(self) -> bool {
        self.x.is_zero() && self.y.is_zero() && self.z.is_zero()
    }

    /// Component-wise sum.
    pub open spec fn plus(self, rhs: VectorModel) -> Option<VectorModel> {
        gathered(self.x.plus(rhs.x), self.y.plus(rhs.y), self.z.plus(rhs.z))
    }

    /// Component-wise difference.
    pub open spec fn minus(self, rhs: VectorModel) -> Option<VectorModel> {
        gathered(self.x.minus(rhs.x), self.y.minus(rhs.y), self.z.minus(rhs.z))
    }

    /// Component-wise product.
    pub open spec fn times(self, rhs: VectorModel) -> Option<VectorModel> {
        gathered(self.x.times(rhs.x), self.y.times(rhs.y), self.z.times(rhs.z))
    }

    /// Component-wise quotient.
    pub open spec fn over(self, rhs: VectorModel) -> Option<VectorModel> {
        gathered(self.x.over(rhs.x), self.y.over(rhs.y), self.z.over(rhs.z))
    }

    /// The scalar added to every component.
    pub open spec fn plus_scalar(self, s: DecimalModel) -> Option<VectorModel> {
        gathered(self.x.plus(s), self.y.plus(s), self.z.plus(s))
    }

    /// The scalar subtracted from every component.
    pub open spec fn minus_scalar(self, s: DecimalModel) -> Option<VectorModel> {
        gathered(self.x.minus(s), self.y.minus(s), self.z.minus(s))
    }

    /// Every component multiplied by the scalar.
    pub open spec fn scaled_by(self, s: DecimalModel) -> Option<VectorModel> {
        gathered(self.x.times(s), self.y.times(s), self.z.times(s))
    }

    /// Every component divided by the scalar.
    pub open spec fn divided_by(self, s: DecimalModel) -> Option<VectorModel> {
        gathered(self.x.over(s), self.y.over(s), self.z.over(s))
    }

    /// `x*x' + y*y' + z*z'`, summed from the left.
    pub open spec fn dot(self, rhs: VectorModel) -> Option<DecimalModel> {
        opt_plus(opt_plus(self.x.times(rhs.x), self.y.times(rhs.y)), self.z.times(rhs.z))
    }

    /// The right-handed cross product
    /// `(y*z' - z*y', z*x' - x*z', x*y' - y*x')`.
    pub open spec fn cross(self, rhs: VectorModel) -> Option<VectorModel> {
        gathered(
            opt_minus(self.y.times(rhs.z), self.z.times(rhs.y)),
            opt_minus(self.z.times(rhs.x), self.x.times(rhs.z)),
            opt_minus(self.x.times(rhs.y), self.y.times(rhs.x)),
        )
    }

    pub open spec fn length_squared(self) -> Option<DecimalModel> {
        self.dot(self)
    }

    /// The square root of the dot product of the vector with itself.
    pub open spec fn length(self) -> Option<DecimalModel> {
        opt_root(self.length_squared())
    }

    /// The length of `self - rhs`.
    pub open spec fn distance_to(self, rhs: VectorModel) -> Option<DecimalModel> {
        match self.minus(rhs) {
            Some(d) => d.length(),
            None => None,
        }
    }

    /// The vector divided by its length. A vector of length zero has no
    /// direction; a length that cannot be computed leaves none either.
    pub open spec fn normalized(self) -> Result<VectorModel, Violation> {
        match self.length() {
            None => Err(Violation::Unrepresentable),
            Some(len) => if len.is_zero() {
                Err(Violation::DegenerateNormalize)
            } else {
                match self.divided_by(len) {
                    Some(v) => Ok(v),
                    None => Err(Violation::Unrepresentable),
                }
            },
        }
    }
}

/// The vector read from three decimal texts.
pub open spec fn vector_parsed(x: &str, y: &str, z: &str) -> Option<VectorModel> {
    gathered(parsed(x), parsed(y), parsed(z))
}

/// The text `{ x: .., y: .., z: .. }` of a vector.
pub open spec fn vector_text(v: VectorModel) -> Seq<char> {
    "{ x: "@ + decimal_text(v.x.scaled()) + ", y: "@ + decimal_text(v.y.scaled()) + ", z: "@
        + decimal_text(v.z.scaled()) + " }"@
}

/// The model of a vector that may be missing.
pub open spec fn vector_view(r: Option<DecimalVector3d>) -> Option<VectorModel> {
    match r {
        Some(v) => Some(v@),
        None => None,
    }
}

/// The model of a vector or the violation that stands in its place.
pub open spec fn vector_outcome(r: Result<DecimalVector3d, Violation>) -> Result<
    VectorModel,
    Violation,
> {
    match r {
        Ok(v) => Ok(v@),
        Err(e) => Err(e),
    }
}

/// A vector of three decimals.
#[derive(Debug)]
pub struct DecimalVector3d {
    pub x: Decimal,
    pub y: Decimal,
    pub z: Decimal,
}

impl View for DecimalVector3d {
    type V = VectorModel;

    open spec fn view(&self) -> VectorModel {
        VectorModel { x: self.x@, y: self.y@, z: self.z@ }
    }
}

impl Clone for DecimalVector3d {
    fn clone(&self) -> (r: DecimalVector3d)
        ensures
            r@ == self@,
    {
        DecimalVector3d { x: self.x.clone(), y: self.y.clone(), z: self.z.clone() }
    }
}

impl DecimalVector3d {
    /// The vector whose components are all zero, of unlimited precision.
    pub fn zero() -> (r: DecimalVector3d)
        ensures
            r@ == VectorModel::zero(),
    {
        DecimalVector3d { x: Decimal::zero(), y: Decimal::zero(), z: Decimal::zero() }
    }

    pub fn new(x: Decimal, y: Decimal, z: Decimal) -> (r: DecimalVector3d)
        ensures
            r.x == x,
            r.y == y,
            r.z == z,
    {
        DecimalVector3d { x, y, z }
    }

    /// Overwrites the three components with those of `v`.
    pub fn assign(&mut self, v: DecimalVector3d)
        ensures
            final(self)@ == v@,
    {
        self.x = v.x.clone();
        self.y = v.y.clone();
        self.z = v.z.clone();
    }

    /// Reads the three components from decimal text; `None` if one of the
    /// texts is no number that a `Decimal` can hold.
    pub fn from_str(x: &str, y: &str, z: &str) -> (r: Option<DecimalVector3d>)
        ensures
            vector_view(r) == vector_parsed(x, y, z),
    {
        let x = Decimal::from_str(x)?;
        let y = Decimal::from_str(y)?;
        let z = Decimal::from_str(z)?;
        Some(DecimalVector3d { x, y, z })
    }

    /// The dot product of the vector with itself; zero for the zero vector.
    pub fn length_squared(&self) -> (r: Option<Decimal>)
        ensures
            decimal_view(r) == self@.length_squared(),
            self@.is_zero() ==> kept_zero(decimal_view(r)),
    {
        self.dot(self)
    }

    /// The length of the vector; zero for the zero vector.
    pub fn length(&self) -> (r: Option<Decimal>)
        ensures
            decimal_view(r) == self@.length(),
            self@.is_zero() ==> kept_zero(decimal_view(r)),
    {
        self.dot(self)?.sqrt()
    }

    pub fn distance_to(&self, rhs: &Self) -> (r: Option<Decimal>)
        ensures
            decimal_view(r) == self@.distance_to(rhs@),
    {
        let difference = self.sub(rhs)?;
        difference.length()
    }

    /// Divides the vector by its length. On a violation the vector is left
    /// as it was; the zero vector has no direction, which is the violation
    /// `DegenerateNormalize`.
    pub fn normalize(&mut self) -> (r: Result<(), Violation>)
        ensures
            match old(self)@.normalized() {
                Ok(v) => r is Ok && final(self)@ == v,
                Err(e) => r == Err::<(), Violation>(e) && final(self)@ == old(self)@,
            },
            old(self)@.is_zero() ==> r == Err::<(), Violation>(Violation::DegenerateNormalize),
    {
        let v = self.normalized()?;
        self.x = v.x;
        self.y = v.y;
        self.z = v.z;
        Ok(())
    }

    /// The vector divided by its length. The zero vector has no direction,
    /// which is the violation `DegenerateNormalize`.
    pub fn normalized(&self) -> (r: Result<Self, Violation>)
        ensures
            vector_outcome(r) == self@.normalized(),
            self@.is_zero() ==> vector_outcome(r) == Err::<VectorModel, Violation>(
                Violation::DegenerateNormalize,
            ),
    {
        let len = match self.length() {
            Some(len) => len,
            None => {
                return Err(Violation::Unrepresentable);
            },
        };
        if len.is_zero() {
            return Err(Violation::DegenerateNormalize);
        }
        match self.div_scalar(&len) {
            Some(v) => Ok(v),
            None => Err(Violation::Unrepresentable),
        }
    }

    /// The dot product; zero where one of the vectors is the zero vector.
    pub fn dot(&self, rhs: &Self) -> (r: Option<Decimal>)
        ensures
            decimal_view(r) == self@.dot(rhs@),
            self@.is_zero() || rhs@.is_zero() ==> kept_zero(decimal_view(r)),
    {
        let xx = self.x.mul(&rhs.x)?;
        let yy = self.y.mul(&rhs.y)?;
        let sum = xx.add(&yy)?;
        let zz = self.z.mul(&rhs.z)?;
        sum.add(&zz)
    }

    /// The right-handed cross product. The cross product of a vector with
    /// itself is zero.
    pub fn cross(&self, rhs: &Self) -> (r: Option<DecimalVector3d>)
        ensures
            vector_view(r) == self@.cross(rhs@),
            self@ == rhs@ ==> (r matches Some(v) ==> v@.is_zero()),
    {
        let x = self.y.mul(&rhs.z)?.sub(&self.z.mul(&rhs.y)?)?;
        let y = self.z.mul(&rhs.x)?.sub(&self.x.mul(&rhs.z)?)?;
        let z = self.x.mul(&rhs.y)?.sub(&self.y.mul(&rhs.x)?)?;
        Some(DecimalVector3d { x, y, z })
    }

    /// The text `{ x: .., y: .., z: .. }`, each component in positional
    /// decimal notation.
    pub fn to_string(&self) -> (r: String)
        ensures
            r@ == vector_text(self@),
    {
        let r = String::from_str("{ x: ");
        let r = r.concat(self.x.to_string().as_str());
        let r = r.concat(", y: ");
        let r = r.concat(self.y.to_string().as_str());
        let r = r.concat(", z: ");
        let r = r.concat(self.z.to_string().as_str());
        r.concat(" }")
    }

    /// Component-wise sum of two vectors.
    pub fn add(&self, rhs: &DecimalVector3d) -> (r: Option<DecimalVector3d>)
        ensures
            vector_view(r) == self@.plus(rhs@),
    {
        let x = self.x.add(&rhs.x)?;
        let y = self.y.add(&rhs.y)?;
        let z = self.z.add(&rhs.z)?;
        Some(DecimalVector3d { x, y, z })
    }

    /// Component-wise difference of two vectors.
    pub fn sub(&self, rhs: &DecimalVector3d) -> (r: Option<DecimalVector3d>)
        ensures
            vector_view(r) == self@.minus(rhs@),
    {
        let x = self.x.sub(&rhs.x)?;
        let y = self.y.sub(&rhs.y)?;
        let z = self.z.sub(&rhs.z)?;
        Some(DecimalVector3d { x, y, z })
    }

    /// Component-wise product of two vectors.
    pub fn mul(&self, rhs: &DecimalVector3d) -> (r: Option<DecimalVector3d>)
        ensures
            vector_view(r) == self@.times(rhs@),
    {
        let x = self.x.mul(&rhs.x)?;
        let y = self.y.mul(&rhs.y)?;
        let z = self.z.mul(&rhs.z)?;
        Some(DecimalVector3d { x, y, z })
    }

    /// Component-wise quotient of two vectors.
    pub fn div(&self, rhs: &DecimalVector3d) -> (r: Option<DecimalVector3d>)
        ensures
            vector_view(r) == self@.over(rhs@),
    {
        let x = self.x.div(&rhs.x)?;
        let y = self.y.div(&rhs.y)?;
        let z = self.z.div(&rhs.z)?;
        Some(DecimalVector3d { x, y, z })
    }

    /// The vector with `rhs` added to every component.
    pub fn add_scalar(&self, rhs: &Decimal) -> (r: Option<DecimalVector3d>)
        ensures
            vector_view(r) == self@.plus_scalar(rhs@),
    {
        let x = self.x.add(rhs)?;
        let y = self.y.add(rhs)?;
        let z = self.z.add(rhs)?;
        Some(DecimalVector3d { x, y, z })
    }

    /// The vector with `rhs` subtracted from every component.
    pub fn sub_scalar(&self, rhs: &Decimal) -> (r: Option<DecimalVector3d>)
        ensures
            vector_view(r) == self@.minus_scalar(rhs@),
    {
        let x = self.x.sub(rhs)?;
        let y = self.y.sub(rhs)?;
        let z = self.z.sub(rhs)?;
        Some(DecimalVector3d { x, y, z })
    }

    /// The vector with every component multiplied by `rhs`.
    pub fn mul_scalar(&self, rhs: &Decimal) -> (r: Option<DecimalVector3d>)
        ensures
            vector_view(r) == self@.scaled_by(rhs@),
    {
        let x = self.x.mul(rhs)?;
        let y = self.y.mul(rhs)?;
        let z = self.z.mul(rhs)?;
        Some(DecimalVector3d { x, y, z })
    }

    /// The vector with every component divided by `rhs`.
    pub fn div_scalar(&self, rhs: &Decimal) -> (r: Option<DecimalVector3d>)
        ensures
            vector_view(r) == self@.divided_by(rhs@),
    {
        let x = self.x.div(rhs)?;
        let y = self.y.div(rhs)?;
        let z = self.z.div(rhs)?;
        Some(DecimalVector3d { x, y, z })
    }

    /// Adds `rhs` to every component in place; where that has no result the
    /// vector is left as it was and `None` is returned.
    pub fn add_assign(&mut self, rhs: &Decimal) -> (r: Option<()>)
        ensures
            match old(self)@.plus_scalar(rhs@) {
                Some(v) => r is Some && final(self)@ == v,
                None => r is None && final(self)@ == old(self)@,
            },
    {
        let v = self.add_scalar(rhs)?;
        self.x = v.x;
        self.y = v.y;
        self.z = v.z;
        Some(())
    }

    /// Subtracts `rhs` from every component in place; where that has no
    /// result the vector is left as it was and `None` is returned.
    pub fn sub_assign(&mut self, rhs: &Decimal) -> (r: Option<()>)
        ensures
            match old(self)@.minus_scalar(rhs@) {
                Some(v) => r is Some && final(self)@ == v,
                None => r is None && final(self)@ == old(self)@,
            },
    {
        let v = self.sub_scalar(rhs)?;
        self.x = v.x;
        self.y = v.y;
        self.z = v.z;
        Some(())
    }

    /// Multiplies every component by `rhs` in place; where that has no
    /// result the vector is left as it was and `None` is returned.
    pub fn mul_assign(&mut self, rhs: &Decimal) -> (r: Option<()>)
        ensures
            match old(self)@.scaled_by(rhs@) {
                Some(v) => r is Some && final(self)@ == v,
                None => r is None && final(self)@ == old(self)@,
            },
    {
        let v = self.mul_scalar(rhs)?;
        self.x = v.x;
        self.y = v.y;
        self.z = v.z;
        Some(())
    }

    /// Divides every component by `rhs` in place; where that has no result
    /// the vector is left as it was and `None` is returned.
    pub fn div_assign(&mut self, rhs: &Decimal) -> (r: Option<()>)
        ensures
            match old(self)@.divided_by(rhs@) {
                Some(v) => r is Some && final(self)@ == v,
                None => r is None && final(self)@ == old(self)@,
            },
    {
        let v = self.div_scalar(rhs)?;
        self.x = v.x;
        self.y = v.y;
        self.z = v.z;
        Some(())
    }
}

} // verus!
