//! Rays: a half-line with a time stamp.
use vstd::prelude::*;
use crate::scalar::Scalar;
use crate::vec3::Vec3;

verus! {

/// A ray from `ori` along `dir`, cast at time `tm`.
#[derive(Clone, Copy, Debug, PartialEq, Eq, Structural)]
pub struct Ray {
    pub ori: Vec3,
    pub dir: Vec3,
    pub tm: Scalar,
}

impl Ray {
    /// The point at parameter `t`: `ori + t * dir`.
    pub open spec fn spec_pos(&self, t: Scalar) -> Vec3 {
        self.ori.add(self.dir.scale(t))
    }

    /// The ray from `ori` along `dir`, cast at time `tm`.
    pub fn new(ori: Vec3, dir: Vec3, tm: Scalar) -> (r: Ray)
        ensures
            r == (Ray { ori, dir, tm }),
    {
        Ray { ori, dir, tm }
    }

    /// The point at parameter `t`.
    #[verifier::when_used_as_spec(spec_pos)]
    pub fn pos(&self, t: Scalar) -> (r: Vec3)
        ensures
            r == self.spec_pos(t),
    {
        self.ori.add(self.dir.scale(t))
    }
}

} // verus!
