//! Rigid poses as the cache stores them.
//!
//! Every coordinate is the bit pattern of an IEEE-754 double. The cache reads
//! of a coordinate only its exponent field, to tell whether the number is
//! finite and whether it is negligibly small.

use vstd::prelude::*;
use crate::time::Tf2Time;

verus! {

/// The bit pattern of the double 1.0.
pub const ONE_BITS: u64 = 0x3FF0_0000_0000_0000;

/// Exponent fields below this one belong to doubles smaller in magnitude than
/// 2^-20.
pub const NEGLIGIBLE_EXPONENT: u64 = 1003;

/// The exponent field of a double, given by its bit pattern.
pub open spec fn exponent_field(bits: u64) -> u64 {
    (bits >> 52) & 0x7ff
}

/// Whether the double with this bit pattern is finite: neither an infinity
/// nor a NaN.
pub open spec fn is_finite_bits(bits: u64) -> bool {
    exponent_field(bits) != 0x7ff
}

/// Whether the double with this bit pattern is smaller in magnitude than
/// 2^-20.
pub open spec fn is_negligible_bits(bits: u64) -> bool {
    exponent_field(bits) < 1003
}

/// A rigid pose: a translation and a rotation quaternion, each coordinate a
/// double given by its bit pattern.
#[derive(Clone, Copy, Debug, PartialEq, Eq, Structural)]
pub struct Transform {
    pub tx: u64,
    pub ty: u64,
    pub tz: u64,
    pub rx: u64,
    pub ry: u64,
    pub rz: u64,
    pub rw: u64,
}

impl Transform {
    /// The pose that moves nothing: zero translation, rotation (0, 0, 0, 1).
    pub open spec fn spec_identity() -> Transform {
        Transform { tx: 0, ty: 0, tz: 0, rx: 0, ry: 0, rz: 0, rw: 0x3FF0_0000_0000_0000 }
    }

    /// Every coordinate is finite.
    pub open spec fn finite(self) -> bool {
        &&& is_finite_bits(self.tx)
        &&& is_finite_bits(self.ty)
        &&& is_finite_bits(self.tz)
        &&& is_finite_bits(self.rx)
        &&& is_finite_bits(self.ry)
        &&& is_finite_bits(self.rz)
        &&& is_finite_bits(self.rw)
    }

    /// The rotation has a norm near zero: each of its four coordinates is
    /// smaller in magnitude than 2^-20.
    pub open spec fn degenerate(self) -> bool {
        &&& is_negligible_bits(self.rx)
        &&& is_negligible_bits(self.ry)
        &&& is_negligible_bits(self.rz)
        &&& is_negligible_bits(self.rw)
    }

    /// A pose that the cache accepts: finite, with a rotation that is not
    /// degenerate.
    pub open spec fn acceptable(self) -> bool {
        self.finite() && !self.degenerate()
    }

    #[verifier::when_used_as_spec(spec_identity)]
    pub fn identity() -> (t: Transform)
        ensures
            t == Transform::spec_identity(),
    {
        Transform { tx: 0, ty: 0, tz: 0, rx: 0, ry: 0, rz: 0, rw: ONE_BITS }
    }

    /// Decides [`Transform::acceptable`].
    pub fn is_acceptable(&self) -> (ok: bool)
        ensures
            ok == self.acceptable(),
    {
        let finite = exponent_of(self.tx) != 0x7ff && exponent_of(self.ty) != 0x7ff && exponent_of(
            self.tz,
        ) != 0x7ff && exponent_of(self.rx) != 0x7ff && exponent_of(self.ry) != 0x7ff
            && exponent_of(self.rz) != 0x7ff && exponent_of(self.rw) != 0x7ff;
        let degenerate = exponent_of(self.rx) < NEGLIGIBLE_EXPONENT && exponent_of(self.ry)
            < NEGLIGIBLE_EXPONENT && exponent_of(self.rz) < NEGLIGIBLE_EXPONENT && exponent_of(
            self.rw,
        ) < NEGLIGIBLE_EXPONENT;
        finite && !degenerate
    }
}

/// Computes [`exponent_field`].
pub fn exponent_of(bits: u64) -> (e: u64)
    ensures
        e == exponent_field(bits),
{
    (bits >> 52) & 0x7ff
}

/// One transform record as it travels between processes: the stamp, the two
/// frame names, and the seven coordinates one by one.
#[derive(Clone, Debug)]
pub struct Tf2TransformStamped {
    pub stamp: Tf2Time,
    pub parent_frame: String,
    pub child_frame: String,
    pub translation_x: u64,
    pub translation_y: u64,
    pub translation_z: u64,
    pub rotation_x: u64,
    pub rotation_y: u64,
    pub rotation_z: u64,
    pub rotation_w: u64,
}

/// A pose together with the edge it belongs to and the time it holds at:
/// `child_frame` as seen from `parent_frame`.
#[derive(Clone, Debug)]
pub struct TransformStamped {
    pub stamp_sec: i32,
    pub stamp_nanosec: u32,
    pub parent_frame: String,
    pub child_frame: String,
    /// x, y, z
    pub translation: [u64; 3],
    /// x, y, z, w
    pub rotation: [u64; 4],
}

impl TransformStamped {
    /// The pose that this record carries.
    pub open spec fn spec_pose(&self) -> Transform {
        Transform {
            tx: self.translation[0],
            ty: self.translation[1],
            tz: self.translation[2],
            rx: self.rotation[0],
            ry: self.rotation[1],
            rz: self.rotation[2],
            rw: self.rotation[3],
        }
    }

    #[verifier::when_used_as_spec(spec_pose)]
    pub fn pose(&self) -> (t: Transform)
        ensures
            t == self.spec_pose(),
    {
        Transform {
            tx: self.translation[0],
            ty: self.translation[1],
            tz: self.translation[2],
            rx: self.rotation[0],
            ry: self.rotation[1],
            rz: self.rotation[2],
            rw: self.rotation[3],
        }
    }

    /// The same record, field by field, in the form that travels.
    pub fn to_ffi(&self) -> (v: Tf2TransformStamped)
        ensures
            v.stamp == (Tf2Time { sec: self.stamp_sec, nanosec: self.stamp_nanosec }),
            v.parent_frame == self.parent_frame,
            v.child_frame == self.child_frame,
            v.translation_x == self.translation[0],
            v.translation_y == self.translation[1],
            v.translation_z == self.translation[2],
            v.rotation_x == self.rotation[0],
            v.rotation_y == self.rotation[1],
            v.rotation_z == self.rotation[2],
            v.rotation_w == self.rotation[3],
    {
        Tf2TransformStamped {
            stamp: Tf2Time { sec: self.stamp_sec, nanosec: self.stamp_nanosec },
            parent_frame: self.parent_frame.clone(),
            child_frame: self.child_frame.clone(),
            translation_x: self.translation[0],
            translation_y: self.translation[1],
            translation_z: self.translation[2],
            rotation_x: self.rotation[0],
            rotation_y: self.rotation[1],
            rotation_z: self.rotation[2],
            rotation_w: self.rotation[3],
        }
    }

    /// The record that travelled as `v`, field by field.
    pub fn from_ffi(v: Tf2TransformStamped) -> (r: TransformStamped)
        ensures
            r.stamp_sec == v.stamp.sec,
            r.stamp_nanosec == v.stamp.nanosec,
            r.parent_frame == v.parent_frame,
            r.child_frame == v.child_frame,
            r.translation@ == seq![v.translation_x, v.translation_y, v.translation_z],
            r.rotation@ == seq![v.rotation_x, v.rotation_y, v.rotation_z, v.rotation_w],
    {
        let r = TransformStamped {
            stamp_sec: v.stamp.sec,
            stamp_nanosec: v.stamp.nanosec,
            parent_frame: v.parent_frame,
            child_frame: v.child_frame,
            translation: [v.translation_x, v.translation_y, v.translation_z],
            rotation: [v.rotation_x, v.rotation_y, v.rotation_z, v.rotation_w],
        };
        assert(r.translation@ =~= seq![v.translation_x, v.translation_y, v.translation_z]);
        assert(r.rotation@ =~= seq![v.rotation_x, v.rotation_y, v.rotation_z, v.rotation_w]);
        r
    }

    /// The record of `pose` on the edge from `child_frame` to `parent_frame`
    /// at the given stamp.
    pub fn new(
        stamp_sec: i32,
        stamp_nanosec: u32,
        parent_frame: String,
        child_frame: String,
        pose: Transform,
    ) -> (r: TransformStamped)
        ensures
            r.stamp_sec == stamp_sec,
            r.stamp_nanosec == stamp_nanosec,
            r.parent_frame == parent_frame,
            r.child_frame == child_frame,
            r.spec_pose() == pose,
    {
        TransformStamped {
            stamp_sec,
            stamp_nanosec,
            parent_frame,
            child_frame,
            translation: [pose.tx, pose.ty, pose.tz],
            rotation: [pose.rx, pose.ry, pose.rz, pose.rw],
        }
    }
}

} // verus!
