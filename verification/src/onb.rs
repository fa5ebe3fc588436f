//! Orthonormal bases: a local frame built around one direction.
use vstd::prelude::*;
use crate::scalar::Scalar;
use crate::vec3::Vec3;

verus! {

/// Three axes, the last of which is the direction the frame was built around.
pub struct ONB {
    pub axis: [Vec3; 3],
}

impl ONB {
    /// The helper direction that the first two axes are derived from: the
    /// y axis where `w` leans along x, the x axis elsewhere.
    pub open spec fn spec_helper(w: Vec3) -> Vec3 {
        if w.x.abs().raw > 900_000 {
            Vec3 { x: Scalar::zero(), y: Scalar::one(), z: Scalar::zero() }
        } else {
            Vec3 { x: Scalar::one(), y: Scalar::zero(), z: Scalar::zero() }
        }
    }

    /// The three axes of the frame around `n`: `w = n / |n|`, `v` the unit
    /// vector along `w x helper`, `u = v x w`.
    pub open spec fn spec_axes(n: Vec3) -> Seq<Vec3> {
        let w = n.unit();
        let v = Vec3::cross(w, ONB::spec_helper(w)).unit();
        let u = Vec3::cross(v, w);
        seq![u, v, w]
    }

    /// The frame whose third axis points along `n`.
    pub open spec fn spec_buildw(n: Vec3) -> ONB {
        let w = n.unit();
        let v = Vec3::cross(w, ONB::spec_helper(w)).unit();
        let u = Vec3::cross(v, w);
        ONB { axis: [u, v, w] }
    }

    /// The first axis.
    pub open spec fn spec_u(&self) -> Vec3 {
        self.axis@[0]
    }

    /// The second axis.
    pub open spec fn spec_v(&self) -> Vec3 {
        self.axis@[1]
    }

    /// The third axis.
    pub open spec fn spec_w(&self) -> Vec3 {
        self.axis@[2]
    }

    /// Axis number `a`.
    pub open spec fn spec_get(&self, a: usize) -> Vec3 {
        self.axis@[a as int]
    }

    /// The vector with local coordinates `(a, b, c)`: `a u + b v + c w`.
    pub open spec fn spec_local(&self, a: Scalar, b: Scalar, c: Scalar) -> Vec3 {
        self.axis@[0].scale(a).add(self.axis@[1].scale(b)).add(self.axis@[2].scale(c))
    }

    /// The local vector `a` in world coordinates.
    pub open spec fn spec_change(&self, a: Vec3) -> Vec3 {
        self.spec_local(a.x, a.y, a.z)
    }

    /// The frame whose third axis points along `n`.
    #[verifier::when_used_as_spec(spec_buildw)]
    pub fn buildw(n: Vec3) -> (r: ONB)
        ensures
            r == ONB::spec_buildw(n),
            r.axis@ == ONB::spec_axes(n),
    {
        let axis2 = n.unit();
        let a = if axis2.x.abs().raw > 900_000 {
            Vec3::new(Scalar::zero(), Scalar::one(), Scalar::zero())
        } else {
            Vec3::new(Scalar::one(), Scalar::zero(), Scalar::zero())
        };
        let axis1 = Vec3::cross(axis2, a).unit();
        let axis0 = Vec3::cross(axis1, axis2);
        let r = ONB { axis: [axis0, axis1, axis2] };
        assert(r.axis@ =~= ONB::spec_axes(n));
        r
    }

    /// The first axis.
    #[verifier::when_used_as_spec(spec_u)]
    pub fn u(&self) -> (r: Vec3)
        ensures
            r == self.spec_u(),
    {
        self.axis[0]
    }

    /// The second axis.
    #[verifier::when_used_as_spec(spec_v)]
    pub fn v(&self) -> (r: Vec3)
        ensures
            r == self.spec_v(),
    {
        self.axis[1]
    }

    /// The third axis, along the direction the frame was built around.
    #[verifier::when_used_as_spec(spec_w)]
    pub fn w(&self) -> (r: Vec3)
        ensures
            r == self.spec_w(),
    {
        self.axis[2]
    }

    /// The vector with local coordinates `(a, b, c)`, in world coordinates.
    #[verifier::when_used_as_spec(spec_local)]
    pub fn local(&self, a: Scalar, b: Scalar, c: Scalar) -> (r: Vec3)
        ensures
            r == self.spec_local(a, b, c),
    {
        self.axis[0].scale(a).add(self.axis[1].scale(b)).add(self.axis[2].scale(c))
    }

    /// The local vector `a` in world coordinates.
    #[verifier::when_used_as_spec(spec_change)]
    pub fn change(&self, a: Vec3) -> (r: Vec3)
        ensures
            r == self.spec_change(a),
    {
        self.axis[0].scale(a.x).add(self.axis[1].scale(a.y)).add(self.axis[2].scale(a.z))
    }

    /// Axis number `a`.
    #[verifier::when_used_as_spec(spec_get)]
    pub fn get(&self, a: usize) -> (r: Vec3)
        requires
            a < 3,
        ensures
            r == self.spec_get(a),
    {
        self.axis[a]
    }
}

} // verus!
