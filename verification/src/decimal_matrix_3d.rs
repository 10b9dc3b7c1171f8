//! 3×3 rotation matrices of arbitrary-precision decimals.

use vstd::prelude::*;
use crate::decimal::{
    opt_minus, opt_over, opt_plus, opt_root, opt_times, valid_parts, Decimal, DecimalModel,
};
use crate::decimal_vector_3d::{gathered, vector_view, DecimalVector3d, VectorModel};
use crate::sin_cos::{cos, cos_series, sin, sin_series};

verus! {

/// Mathematical model of a [`DecimalMatrix3d`]; `mIJ` is the entry
/// `data[I][J]`.
pub struct MatrixModel {
    pub m00: DecimalModel,
    pub m01: DecimalModel,
    pub m02: DecimalModel,
    pub m10: DecimalModel,
    pub m11: DecimalModel,
    pub m12: DecimalModel,
    pub m20: DecimalModel,
    pub m21: DecimalModel,
    pub m22: DecimalModel,
}

/// Mathematical model of a quaternion `x*i + y*j + z*k + w`.
pub struct QuaternionModel {
    pub x: DecimalModel,
    pub y: DecimalModel,
    pub z: DecimalModel,
    pub w: DecimalModel,
}

/// One half, written with two digits.
pub open spec fn one_half() -> DecimalModel {
    DecimalModel { significand: 5, exponent: -1, precision: 2 }
}

/// Number of series terms that the rotation takes of sine and cosine.
pub const TRIG_TERMS: u32 = 32;

/// The three rows, if every entry is there.
pub open spec fn gathered_rows(
    r0: Option<VectorModel>,
    r1: Option<VectorModel>,
    r2: Option<VectorModel>,
) -> Option<MatrixModel> {
    match (r0, r1, r2) {
        (Some(a), Some(b), Some(c)) => Some(
            MatrixModel {
                m00: a.x,
                m01: a.y,
                m02: a.z,
                m10: b.x,
                m11: b.y,
                m12: b.z,
                m20: c.x,
                m21: c.y,
                m22: c.z,
            },
        ),
        _ => None,
    }
}

/// The four components, if every one is there.
pub open spec fn gathered_quaternion(
    x: Option<DecimalModel>,
    y: Option<DecimalModel>,
    z: Option<DecimalModel>,
    w: Option<DecimalModel>,
) -> Option<QuaternionModel> {
    match (x, y, z, w) {
        (Some(x), Some(y), Some(z), Some(w)) => Some(QuaternionModel { x, y, z, w }),
        _ => None,
    }
}

/// The rotation about the unit vector `axis` by `angle`, after Rodrigues,
/// built from the cosine `c` and sine `s` of the negated angle:
///
/// ```text
/// (1-c)xx + c    (1-c)xy - zs   (1-c)zx + ys
/// (1-c)xy + zs   (1-c)yy + c    (1-c)yz - xs
/// (1-c)zx - ys   (1-c)yz + xs   (1-c)zz + c
/// ```
///
/// Each product is taken from the left.
pub open spec fn axis_angle_model(axis: VectorModel, angle: DecimalModel) -> Option<MatrixModel> {
    let c = cos_series(angle.negated(), TRIG_TERMS as nat);
    let s = sin_series(angle.negated(), TRIG_TERMS as nat);
    let d = opt_minus(Some(DecimalModel::one()), c);
    let x = Some(axis.x);
    let y = Some(axis.y);
    let z = Some(axis.z);
    gathered_rows(
        gathered(
            opt_plus(opt_times(opt_times(d, x), x), c),
            opt_minus(opt_times(opt_times(d, x), y), opt_times(z, s)),
            opt_plus(opt_times(opt_times(d, z), x), opt_times(y, s)),
        ),
        gathered(
            opt_plus(opt_times(opt_times(d, x), y), opt_times(z, s)),
            opt_plus(opt_times(opt_times(d, y), y), c),
            opt_minus(opt_times(opt_times(d, y), z), opt_times(x, s)),
        ),
        gathered(
            opt_minus(opt_times(opt_times(d, z), x), opt_times(y, s)),
            opt_plus(opt_times(opt_times(d, y), z), opt_times(x, s)),
            opt_plus(opt_times(opt_times(d, z), z), c),
        ),
    )
}

/// `0 + a*x + b*y + c*z`, summed from the left.
pub open spec fn combination(
    a: DecimalModel,
    b: DecimalModel,
    c: DecimalModel,
    v: VectorModel,
) -> Option<DecimalModel> {
    opt_plus(
        opt_plus(opt_plus(Some(DecimalModel::zero()), a.times(v.x)), b.times(v.y)),
        c.times(v.z),
    )
}

impl MatrixModel {
    pub open spec fn identity() -> MatrixModel {
        MatrixModel {
            m00: DecimalModel::one(),
            m01: DecimalModel::zero(),
            m02: DecimalModel::zero(),
            m10: DecimalModel::zero(),
            m11: DecimalModel::one(),
            m12: DecimalModel::zero(),
            m20: DecimalModel::zero(),
            m21: DecimalModel::zero(),
            m22: DecimalModel::one(),
        }
    }

    /// Whether the matrix is the identity as far as numbers go: ones on
    /// the diagonal and zeros elsewhere, whatever their precisions.
    pub open spec fn is_identity(self) -> bool {
        let one = DecimalModel::one().scaled();
        &&& self.m00.scaled() == one
        &&& self.m11.scaled() == one
        &&& self.m22.scaled() == one
        &&& self.m01.is_zero()
        &&& self.m02.is_zero()
        &&& self.m10.is_zero()
        &&& self.m12.is_zero()
        &&& self.m20.is_zero()
        &&& self.m21.is_zero()
    }

    /// The entry in row `i` and column `j`, both taken modulo three.
    pub open spec fn entry(self, i: int, j: int) -> DecimalModel {
        let i = i % 3;
        let j = j % 3;
        if i == 0 {
            if j == 0 {
                self.m00
            } else if j == 1 {
                self.m01
            } else {
                self.m02
            }
        } else if i == 1 {
            if j == 0 {
                self.m10
            } else if j == 1 {
                self.m11
            } else {
                self.m12
            }
        } else {
            if j == 0 {
                self.m20
            } else if j == 1 {
                self.m21
            } else {
                self.m22
            }
        }
    }

    /// The vector transformed: component `j` of the result combines column
    /// `j` of the matrix with the vector.
    pub open spec fn apply(self, v: VectorModel) -> Option<VectorModel> {
        gathered(
            combination(self.m00, self.m10, self.m20, v),
            combination(self.m01, self.m11, self.m21, v),
            combination(self.m02, self.m12, self.m22, v),
        )
    }

    /// `m00 + m11 + m22`, summed from the left.
    pub open spec fn trace(self) -> Option<DecimalModel> {
        opt_plus(self.m00.plus(self.m11), Some(self.m22))
    }

    /// Index of the diagonal entry on which the quaternion is built when the
    /// trace is not positive: the largest, the first of equals winning.
    pub open spec fn pivot(self) -> int {
        let i: int = if self.m00.less_than(self.m11) {
            1
        } else {
            0
        };
        if self.entry(i, i).less_than(self.m22) {
            2
        } else {
            i
        }
    }

    /// The quaternion of a matrix with positive trace `t`: with
    /// `r = sqrt(t + 1)` and `h = 1/2 / r`,
    /// `w = r/2`, `x = (m12 - m21) h`, `y = (m20 - m02) h`,
    /// `z = (m01 - m10) h`.
    pub open spec fn quat_by_trace(self, t: DecimalModel) -> Option<QuaternionModel> {
        let root = opt_root(t.plus(DecimalModel::one()));
        let w = opt_times(Some(one_half()), root);
        let h = opt_over(Some(one_half()), root);
        gathered_quaternion(
            opt_times(self.m12.minus(self.m21), h),
            opt_times(self.m20.minus(self.m02), h),
            opt_times(self.m01.minus(self.m10), h),
            w,
        )
    }

    /// The three components and the scalar part of the quaternion built on
    /// the diagonal entry `i`: with `j` and `k` the next two indices in
    /// cyclic order, `r = sqrt(mii - mjj - mkk + 1)` and `h = 1/2 / r`, these
    /// are `r/2` for `i`, `(mji + mij) h` for `j`, `(mki + mik) h` for `k`,
    /// and `(mjk - mkj) h` as scalar part.
    pub open spec fn quat_parts(self, i: int) -> (
        Option<DecimalModel>,
        Option<DecimalModel>,
        Option<DecimalModel>,
        Option<DecimalModel>,
    ) {
        let j = i + 1;
        let k = i + 2;
        let root = opt_root(
            opt_plus(
                opt_minus(self.entry(i, i).minus(self.entry(j, j)), Some(self.entry(k, k))),
                Some(DecimalModel::one()),
            ),
        );
        let h = opt_over(Some(one_half()), root);
        (
            opt_times(Some(one_half()), root),
            opt_times(self.entry(j, i).plus(self.entry(i, j)), h),
            opt_times(self.entry(k, i).plus(self.entry(i, k)), h),
            opt_times(self.entry(j, k).minus(self.entry(k, j)), h),
        )
    }

    /// The quaternion built on the diagonal entry `i`, its three parts put in
    /// the places `i`, `i + 1` and `i + 2` in cyclic order.
    pub open spec fn quat_by_pivot(self, i: int) -> Option<QuaternionModel> {
        let (a, b, c, w) = self.quat_parts(i);
        if i == 0 {
            gathered_quaternion(a, b, c, w)
        } else if i == 1 {
            gathered_quaternion(c, a, b, w)
        } else {
            gathered_quaternion(b, c, a, w)
        }
    }

    /// The rotation as a quaternion, after Shepperd: by the trace where it
    /// is positive, else by the largest diagonal entry.
    pub open spec fn as_quat(self) -> Option<QuaternionModel> {
        match self.trace() {
            None => None,
            Some(t) => if DecimalModel::zero().less_than(t) {
                self.quat_by_trace(t)
            } else {
                self.quat_by_pivot(self.pivot())
            },
        }
    }
}

/// A 3×3 matrix of decimals, held row by row.
#[derive(Debug)]
pub struct DecimalMatrix3d {
    pub data: [[Decimal; 3]; 3],
}

impl View for DecimalMatrix3d {
    type V = MatrixModel;

    open spec fn view(&self) -> MatrixModel {
        MatrixModel {
            m00: self.data[0][0]@,
            m01: self.data[0][1]@,
            m02: self.data[0][2]@,
            m10: self.data[1][0]@,
            m11: self.data[1][1]@,
            m12: self.data[1][2]@,
            m20: self.data[2][0]@,
            m21: self.data[2][1]@,
            m22: self.data[2][2]@,
        }
    }
}

/// Whether a matrix is there and is the identity as far as numbers go.
pub open spec fn is_identity_result(r: Option<MatrixModel>) -> bool {
    match r {
        Some(m) => m.is_identity(),
        None => false,
    }
}

/// The model of a matrix that may be missing.
pub open spec fn matrix_view(r: Option<DecimalMatrix3d>) -> Option<MatrixModel> {
    match r {
        Some(m) => Some(m@),
        None => None,
    }
}

/// The model of a quaternion, held as `[x, y, z, w]`, that may be missing.
pub open spec fn quaternion_view(r: Option<[Decimal; 4]>) -> Option<QuaternionModel> {
    match r {
        Some(q) => Some(QuaternionModel { x: q[0]@, y: q[1]@, z: q[2]@, w: q[3]@ }),
        None => None,
    }
}

/// One half, as the decimal text `0.5` reads.
fn half() -> (r: Decimal)
    ensures
        r@ == one_half(),
{
    let digits: Vec<u64> = vec![5];
    assert(valid_parts(false, digits@, -1, 2));
    assert(crate::decimal::digits_value(digits@.drop_last()) == 0);
    match Decimal::from_digits(false, digits, -1, 2) {
        Some(r) => r,
        None => Decimal::zero(),
    }
}

impl Clone for DecimalMatrix3d {
    fn clone(&self) -> (r: DecimalMatrix3d)
        ensures
            r@ == self@,
    {
        DecimalMatrix3d {
            data: [
                [self.data[0][0].clone(), self.data[0][1].clone(), self.data[0][2].clone()],
                [self.data[1][0].clone(), self.data[1][1].clone(), self.data[1][2].clone()],
                [self.data[2][0].clone(), self.data[2][1].clone(), self.data[2][2].clone()],
            ],
        }
    }
}

impl DecimalMatrix3d {
    /// The matrix that leaves every vector as it is.
    pub fn identity() -> (r: DecimalMatrix3d)
        ensures
            r@ == MatrixModel::identity(),
    {
        DecimalMatrix3d {
            data: [
                [Decimal::one(), Decimal::zero(), Decimal::zero()],
                [Decimal::zero(), Decimal::one(), Decimal::zero()],
                [Decimal::zero(), Decimal::zero(), Decimal::one()],
            ],
        }
    }

    /// The rotation about the unit vector `axis` by `angle` radians. The
    /// angle is negated before its sine and cosine are taken, which fixes the
    /// sense of the rotation. The rotation by zero is the identity.
    pub fn axis_angle(axis: &DecimalVector3d, angle: Decimal) -> (r: Option<DecimalMatrix3d>)
        ensures
            matrix_view(r) == axis_angle_model(axis@, angle@),
            angle@.is_zero() ==> is_identity_result(matrix_view(r)),
    {
        let c = cos(angle.neg(), TRIG_TERMS)?;
        let s = sin(angle.neg(), TRIG_TERMS)?;
        let d = Decimal::one().sub(&c)?;
        let m00 = d.mul(&axis.x)?.mul(&axis.x)?.add(&c)?;
        let m01 = d.mul(&axis.x)?.mul(&axis.y)?.sub(&axis.z.mul(&s)?)?;
        let m02 = d.mul(&axis.z)?.mul(&axis.x)?.add(&axis.y.mul(&s)?)?;
        let m10 = d.mul(&axis.x)?.mul(&axis.y)?.add(&axis.z.mul(&s)?)?;
        let m11 = d.mul(&axis.y)?.mul(&axis.y)?.add(&c)?;
        let m12 = d.mul(&axis.y)?.mul(&axis.z)?.sub(&axis.x.mul(&s)?)?;
        let m20 = d.mul(&axis.z)?.mul(&axis.x)?.sub(&axis.y.mul(&s)?)?;
        let m21 = d.mul(&axis.y)?.mul(&axis.z)?.add(&axis.x.mul(&s)?)?;
        let m22 = d.mul(&axis.z)?.mul(&axis.z)?.add(&c)?;
        Some(DecimalMatrix3d { data: [[m00, m01, m02], [m10, m11, m12], [m20, m21, m22]] })
    }

    /// `0 + a*v.x + b*v.y + c*v.z`.
    fn combine(a: &Decimal, b: &Decimal, c: &Decimal, v: &DecimalVector3d) -> (r: Option<Decimal>)
        ensures
            crate::decimal::decimal_view(r) == combination(a@, b@, c@, v@),
    {
        Decimal::zero().add(&a.mul(&v.x)?)?.add(&b.mul(&v.y)?)?.add(&c.mul(&v.z)?)
    }

    /// The vector transformed by the matrix: component `j` of the result is
    /// `data[0][j]*v.x + data[1][j]*v.y + data[2][j]*v.z`.
    pub fn apply(&self, vector: &DecimalVector3d) -> (r: Option<DecimalVector3d>)
        ensures
            vector_view(r) == self@.apply(vector@),
    {
        let x = Self::combine(&self.data[0][0], &self.data[1][0], &self.data[2][0], vector)?;
        let y = Self::combine(&self.data[0][1], &self.data[1][1], &self.data[2][1], vector)?;
        let z = Self::combine(&self.data[0][2], &self.data[1][2], &self.data[2][2], vector)?;
        Some(DecimalVector3d { x, y, z })
    }

    /// The entry in row `i % 3` and column `j % 3`.
    fn entry(&self, i: usize, j: usize) -> (r: &Decimal)
        ensures
            r@ == self@.entry(i as int, j as int),
    {
        &self.data[i % 3][j % 3]
    }

    /// Index of the largest diagonal entry, the first of equals winning.
    fn pivot(&self) -> (i: usize)
        ensures
            i == self@.pivot(),
            i < 3,
    {
        let mut i: usize = 0;
        if self.data[1][1].gt(&self.data[0][0]) {
            i = 1;
        }
        if self.data[2][2].gt(self.entry(i, i)) {
            i = 2;
        }
        i
    }

    /// The quaternion of a matrix with positive trace.
    fn quat_by_trace(&self, trace: &Decimal) -> (r: Option<[Decimal; 4]>)
        ensures
            quaternion_view(r) == self@.quat_by_trace(trace@),
    {
        let half = half();
        let root = trace.add(&Decimal::one())?.sqrt()?;
        let w = half.mul(&root)?;
        let h = half.div(&root)?;
        let x = self.data[1][2].sub(&self.data[2][1])?.mul(&h)?;
        let y = self.data[2][0].sub(&self.data[0][2])?.mul(&h)?;
        let z = self.data[0][1].sub(&self.data[1][0])?.mul(&h)?;
        Some([x, y, z, w])
    }

    /// The parts of the quaternion built on the diagonal entry `i`.
    fn quat_parts(&self, i: usize) -> (r: Option<(Decimal, Decimal, Decimal, Decimal)>)
        requires
            i < 3,
        ensures
            match r {
                Some((a, b, c, w)) => self@.quat_parts(i as int) == (
                    Some(a@),
                    Some(b@),
                    Some(c@),
                    Some(w@),
                ),
                None => {
                    let (a, b, c, w) = self@.quat_parts(i as int);
                    a is None || b is None || c is None || w is None
                },
            },
    {
        let half = half();
        let j: usize = i + 1;
        let k: usize = i + 2;
        let root = self.entry(i, i).sub(self.entry(j, j))?.sub(self.entry(k, k))?.add(
            &Decimal::one(),
        )?.sqrt()?;
        let a = half.mul(&root)?;
        let h = half.div(&root)?;
        let w = self.entry(j, k).sub(self.entry(k, j))?.mul(&h)?;
        let b = self.entry(j, i).add(self.entry(i, j))?.mul(&h)?;
        let c = self.entry(k, i).add(self.entry(i, k))?.mul(&h)?;
        Some((a, b, c, w))
    }

    /// The quaternion built on the diagonal entry `i`.
    fn quat_by_pivot(&self, i: usize) -> (r: Option<[Decimal; 4]>)
        requires
            i < 3,
        ensures
            quaternion_view(r) == self@.quat_by_pivot(i as int),
    {
        let (a, b, c, w) = self.quat_parts(i)?;
        if i == 0 {
            Some([a, b, c, w])
        } else if i == 1 {
            Some([c, a, b, w])
        } else {
            Some([b, c, a, w])
        }
    }

    /// The rotation as the quaternion `[x, y, z, w]`.
    pub fn as_quat(&self) -> (r: Option<[Decimal; 4]>)
        ensures
            quaternion_view(r) == self@.as_quat(),
    {
        let trace = self.data[0][0].add(&self.data[1][1])?.add(&self.data[2][2])?;
        if trace.gt(&Decimal::zero()) {
            self.quat_by_trace(&trace)
        } else {
            self.quat_by_pivot(self.pivot())
        }
    }
}

} // verus!
