//! Scalars, vectors and matrices as the scene graph carries them, and the
//! arithmetic that it asks of its caller.
//!
//! Verified code does no arithmetic on real numbers. Every scalar is held as
//! the 32-bit word of its IEEE-754 single-precision encoding, and every
//! operation on scalars is a method of [`Arithmetic`]. The scene graph fixes
//! which operation is applied to which operands and where the result is
//! stored; what an operation yields is the business of the implementor.

use vstd::prelude::*;

verus! {

/// One single-precision number, as the word of its IEEE-754 encoding.
pub type Scalar = u32;

/// The word of `0.0`.
pub const ZERO: Scalar = 0x0000_0000;

/// The word of `0.5`.
pub const HALF: Scalar = 0x3F00_0000;

/// The word of `1.0`.
pub const ONE: Scalar = 0x3F80_0000;

/// A vector of three scalars.
#[derive(Clone, Copy, Debug, PartialEq, Eq)]
pub struct Vector3 {
    pub x: Scalar,
    pub y: Scalar,
    pub z: Scalar,
}

/// A vector of four scalars.
#[derive(Clone, Copy, Debug, PartialEq, Eq)]
pub struct Vector4 {
    pub x: Scalar,
    pub y: Scalar,
    pub z: Scalar,
    pub w: Scalar,
}

/// A quaternion: scalar part `s`, vector part `v`.
#[derive(Clone, Copy, Debug, PartialEq, Eq)]
pub struct Quaternion {
    pub s: Scalar,
    pub v: Vector3,
}

/// A 3 by 3 matrix, one column after the other.
#[derive(Clone, Copy, Debug, PartialEq, Eq)]
pub struct Matrix3 {
    pub m: [Scalar; 9],
}

/// A 4 by 4 matrix, one column after the other.
#[derive(Clone, Copy, Debug, PartialEq, Eq)]
pub struct Matrix4 {
    pub m: [Scalar; 16],
}

impl Vector3 {
    /// The vector `(0, 0, 0)`.
    pub open spec fn spec_zero() -> Vector3 {
        Vector3 { x: ZERO, y: ZERO, z: ZERO }
    }

    /// The vector `(1, 1, 1)`.
    pub open spec fn spec_ones() -> Vector3 {
        Vector3 { x: ONE, y: ONE, z: ONE }
    }

    #[verifier::when_used_as_spec(spec_zero)]
    pub fn zero() -> (v: Vector3)
        ensures
            v == Vector3::spec_zero(),
    {
        Vector3 { x: ZERO, y: ZERO, z: ZERO }
    }

    #[verifier::when_used_as_spec(spec_ones)]
    pub fn ones() -> (v: Vector3)
        ensures
            v == Vector3::spec_ones(),
    {
        Vector3 { x: ONE, y: ONE, z: ONE }
    }
}

impl Vector4 {
    /// The point `(0, 0, 0, 1)`: the origin in homogeneous coordinates.
    pub open spec fn spec_origin() -> Vector4 {
        Vector4 { x: ZERO, y: ZERO, z: ZERO, w: ONE }
    }

    #[verifier::when_used_as_spec(spec_origin)]
    pub fn origin() -> (v: Vector4)
        ensures
            v == Vector4::spec_origin(),
    {
        Vector4 { x: ZERO, y: ZERO, z: ZERO, w: ONE }
    }
}

impl Quaternion {
    /// The rotation that turns nothing: `1 + 0i + 0j + 0k`.
    pub open spec fn spec_identity() -> Quaternion {
        Quaternion { s: ONE, v: Vector3::spec_zero() }
    }

    #[verifier::when_used_as_spec(spec_identity)]
    pub fn identity() -> (q: Quaternion)
        ensures
            q == Quaternion::spec_identity(),
    {
        Quaternion { s: ONE, v: Vector3::zero() }
    }
}

impl Matrix3 {
    /// The words of the 3 by 3 identity.
    pub open spec fn identity_words() -> Seq<Scalar> {
        seq![ONE, ZERO, ZERO, ZERO, ONE, ZERO, ZERO, ZERO, ONE]
    }

    /// The 3 by 3 identity.
    pub fn identity() -> (m: Matrix3)
        ensures
            m.m@ == Matrix3::identity_words(),
    {
        Matrix3 { m: [ONE, ZERO, ZERO, ZERO, ONE, ZERO, ZERO, ZERO, ONE] }
    }
}

impl Matrix4 {
    /// The words of the 4 by 4 identity.
    pub open spec fn identity_words() -> Seq<Scalar> {
        seq![
            ONE, ZERO, ZERO, ZERO,
            ZERO, ONE, ZERO, ZERO,
            ZERO, ZERO, ONE, ZERO,
            ZERO, ZERO, ZERO, ONE,
        ]
    }

    /// The words of the matrix that maps clip space with depth in `[-1, 1]`
    /// to clip space with depth in `[0, 1]`.
    pub open spec fn depth_correction_words() -> Seq<Scalar> {
        seq![
            ONE, ZERO, ZERO, ZERO,
            ZERO, ONE, ZERO, ZERO,
            ZERO, ZERO, HALF, ZERO,
            ZERO, ZERO, HALF, ONE,
        ]
    }

    /// The 4 by 4 identity.
    pub fn identity() -> (m: Matrix4)
        ensures
            m.m@ == Matrix4::identity_words(),
    {
        Matrix4 {
            m: [
                ONE, ZERO, ZERO, ZERO,
                ZERO, ONE, ZERO, ZERO,
                ZERO, ZERO, ONE, ZERO,
                ZERO, ZERO, ZERO, ONE,
            ],
        }
    }

    /// The depth correction that every camera puts in front of its
    /// projection.
    pub fn depth_correction() -> (m: Matrix4)
        ensures
            m.m@ == Matrix4::depth_correction_words(),
    {
        Matrix4 {
            m: [
                ONE, ZERO, ZERO, ZERO,
                ZERO, ONE, ZERO, ZERO,
                ZERO, ZERO, HALF, ZERO,
                ZERO, ZERO, HALF, ONE,
            ],
        }
    }
}

/// The operations on scalars that the scene graph needs.
///
/// Each operation comes with a relation between its operands and a result.
/// The relation is the implementor's; the scene graph states its own
/// contracts over these relations and promises nothing about what a result
/// holds. An operation may relate one operand to several results.
pub trait Arithmetic {
    /// Whether every operation can be called on every operand.
    spec fn total(&self) -> bool;

    /// `q` is the rotation by the angles `x`, `y`, `z` (in radians) about
    /// the three axes.
    spec fn euler_gives(&self, x: Scalar, y: Scalar, z: Scalar, q: Quaternion) -> bool;

    /// `q` is the rotation `a` followed, in `a`'s own frame, by `b`: the
    /// product `a * b`.
    spec fn turn_gives(&self, a: Quaternion, b: Quaternion, q: Quaternion) -> bool;

    /// `v` is the sum `a + b`.
    spec fn sum_gives(&self, a: Vector3, b: Vector3, v: Vector3) -> bool;

    /// `m` is the matrix of the translation by `v`.
    spec fn translation_gives(&self, v: Vector3, m: Matrix4) -> bool;

    /// `m` is the matrix of the rotation `q`.
    spec fn rotation_gives(&self, q: Quaternion, m: Matrix4) -> bool;

    /// `m` is the matrix that scales the three axes by the parts of `v`.
    spec fn scale_gives(&self, v: Vector3, m: Matrix4) -> bool;

    /// `m` is the product `a * b`.
    spec fn product_gives(&self, a: Matrix4, b: Matrix4, m: Matrix4) -> bool;

    /// `m` is the inverse of `a`, or `None` where `a` has none.
    spec fn inverse_gives(&self, a: Matrix4, m: Option<Matrix4>) -> bool;

    /// `v` is the image `a * p`.
    spec fn image_gives(&self, a: Matrix4, p: Vector4, v: Vector4) -> bool;

    /// `s` is the quotient `a / b`.
    spec fn quotient_gives(&self, a: Scalar, b: Scalar, s: Scalar) -> bool;

    fn euler(&self, x: Scalar, y: Scalar, z: Scalar) -> (q: Quaternion)
        requires
            self.total(),
        ensures
            self.euler_gives(x, y, z, q),
    ;

    fn turn(&self, a: Quaternion, b: Quaternion) -> (q: Quaternion)
        requires
            self.total(),
        ensures
            self.turn_gives(a, b, q),
    ;

    fn sum(&self, a: Vector3, b: Vector3) -> (v: Vector3)
        requires
            self.total(),
        ensures
            self.sum_gives(a, b, v),
    ;

    fn translation(&self, v: Vector3) -> (m: Matrix4)
        requires
            self.total(),
        ensures
            self.translation_gives(v, m),
    ;

    fn rotation(&self, q: Quaternion) -> (m: Matrix4)
        requires
            self.total(),
        ensures
            self.rotation_gives(q, m),
    ;

    fn scale(&self, v: Vector3) -> (m: Matrix4)
        requires
            self.total(),
        ensures
            self.scale_gives(v, m),
    ;

    fn product(&self, a: Matrix4, b: Matrix4) -> (m: Matrix4)
        requires
            self.total(),
        ensures
            self.product_gives(a, b, m),
    ;

    fn inverse(&self, a: Matrix4) -> (m: Option<Matrix4>)
        requires
            self.total(),
        ensures
            self.inverse_gives(a, m),
    ;

    fn image(&self, a: Matrix4, p: Vector4) -> (v: Vector4)
        requires
            self.total(),
        ensures
            self.image_gives(a, p, v),
    ;

    fn quotient(&self, a: Scalar, b: Scalar) -> (s: Scalar)
        requires
            self.total(),
        ensures
            self.quotient_gives(a, b, s),
    ;
}

/// An [`Arithmetic`] made of ten function values, one for each operation.
///
/// An operation yields whatever its function value returns.
pub struct Kernels<E, T, S, MT, MR, MS, P, I, G, Q> {
    pub euler: E,
    pub turn: T,
    pub sum: S,
    pub translation: MT,
    pub rotation: MR,
    pub scale: MS,
    pub product: P,
    pub inverse: I,
    pub image: G,
    pub quotient: Q,
}

impl<E, T, S, MT, MR, MS, P, I, G, Q> Arithmetic for Kernels<E, T, S, MT, MR, MS, P, I, G, Q> where
    E: Fn(Scalar, Scalar, Scalar) -> Quaternion,
    T: Fn(Quaternion, Quaternion) -> Quaternion,
    S: Fn(Vector3, Vector3) -> Vector3,
    MT: Fn(Vector3) -> Matrix4,
    MR: Fn(Quaternion) -> Matrix4,
    MS: Fn(Vector3) -> Matrix4,
    P: Fn(Matrix4, Matrix4) -> Matrix4,
    I: Fn(Matrix4) -> Option<Matrix4>,
    G: Fn(Matrix4, Vector4) -> Vector4,
    Q: Fn(Scalar, Scalar) -> Scalar,
 {
    open spec fn total(&self) -> bool {
        &&& forall|x: Scalar, y: Scalar, z: Scalar| call_requires(self.euler, (x, y, z))
        &&& forall|a: Quaternion, b: Quaternion| call_requires(self.turn, (a, b))
        &&& forall|a: Vector3, b: Vector3| call_requires(self.sum, (a, b))
        &&& forall|v: Vector3| call_requires(self.translation, (v,))
        &&& forall|q: Quaternion| call_requires(self.rotation, (q,))
        &&& forall|v: Vector3| call_requires(self.scale, (v,))
        &&& forall|a: Matrix4, b: Matrix4| call_requires(self.product, (a, b))
        &&& forall|a: Matrix4| call_requires(self.inverse, (a,))
        &&& forall|a: Matrix4, p: Vector4| call_requires(self.image, (a, p))
        &&& forall|a: Scalar, b: Scalar| call_requires(self.quotient, (a, b))
    }

    open spec fn euler_gives(&self, x: Scalar, y: Scalar, z: Scalar, q: Quaternion) -> bool {
        call_ensures(self.euler, (x, y, z), q)
    }

    open spec fn turn_gives(&self, a: Quaternion, b: Quaternion, q: Quaternion) -> bool {
        call_ensures(self.turn, (a, b), q)
    }

    open spec fn sum_gives(&self, a: Vector3, b: Vector3, v: Vector3) -> bool {
        call_ensures(self.sum, (a, b), v)
    }

    open spec fn translation_gives(&self, v: Vector3, m: Matrix4) -> bool {
        call_ensures(self.translation, (v,), m)
    }

    open spec fn rotation_gives(&self, q: Quaternion, m: Matrix4) -> bool {
        call_ensures(self.rotation, (q,), m)
    }

    open spec fn scale_gives(&self, v: Vector3, m: Matrix4) -> bool {
        call_ensures(self.scale, (v,), m)
    }

    open spec fn product_gives(&self, a: Matrix4, b: Matrix4, m: Matrix4) -> bool {
        call_ensures(self.product, (a, b), m)
    }

    open spec fn inverse_gives(&self, a: Matrix4, m: Option<Matrix4>) -> bool {
        call_ensures(self.inverse, (a,), m)
    }

    open spec fn image_gives(&self, a: Matrix4, p: Vector4, v: Vector4) -> bool {
        call_ensures(self.image, (a, p), v)
    }

    open spec fn quotient_gives(&self, a: Scalar, b: Scalar, s: Scalar) -> bool {
        call_ensures(self.quotient, (a, b), s)
    }

    fn euler(&self, x: Scalar, y: Scalar, z: Scalar) -> (q: Quaternion) {
        (self.euler)(x, y, z)
    }

    fn turn(&self, a: Quaternion, b: Quaternion) -> (q: Quaternion) {
        (self.turn)(a, b)
    }

    fn sum(&self, a: Vector3, b: Vector3) -> (v: Vector3) {
        (self.sum)(a, b)
    }

    fn translation(&self, v: Vector3) -> (m: Matrix4) {
        (self.translation)(v)
    }

    fn rotation(&self, q: Quaternion) -> (m: Matrix4) {
        (self.rotation)(q)
    }

    fn scale(&self, v: Vector3) -> (m: Matrix4) {
        (self.scale)(v)
    }

    fn product(&self, a: Matrix4, b: Matrix4) -> (m: Matrix4) {
        (self.product)(a, b)
    }

    fn inverse(&self, a: Matrix4) -> (m: Option<Matrix4>) {
        (self.inverse)(a)
    }

    fn image(&self, a: Matrix4, p: Vector4) -> (v: Vector4) {
        (self.image)(a, p)
    }

    fn quotient(&self, a: Scalar, b: Scalar) -> (s: Scalar) {
        (self.quotient)(a, b)
    }
}

} // verus!
