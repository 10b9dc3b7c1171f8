//! Arbitrary-precision kinematics for a hierarchy of celestial bodies.
//!
//! The crate pairs a decimal 3D vector and rotation-matrix algebra with an
//! engine that flattens a tree of bodies, advances it to a given time and
//! answers spatial queries. Every executable function carries a contract that
//! Verus proves; decimal arithmetic itself is delegated to `dashu-float`
//! behind a small set of trusted wrappers in [`decimal`].

pub mod au;
pub mod body;
pub mod decimal;
pub mod hierarchy;
pub mod decimal_matrix_3d;
pub mod decimal_vector_3d;
pub mod settling;
pub mod simulation;
pub mod sin_cos;
pub mod violation;
