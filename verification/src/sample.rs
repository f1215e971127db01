//! Sample encodings and the envelope order used by the decimation pyramid.
//!
//! A real sample is the IEEE-754 bit pattern of a 32-bit float, carried as a
//! `u32` (what `f32::to_bits` returns). The library never performs
//! floating-point arithmetic on samples; it only needs to *order* them, and
//! the sign-magnitude key below orders bit patterns exactly as `f32::total_cmp`
//! orders the floats they encode. On values that are neither NaN nor
//! negative zero this is the usual numeric order of the floats.
//!
//! An in-phase/quadrature sample is a pair of such encodings. Pairs are
//! compared componentwise, so their "maximum" is the componentwise envelope,
//! not one of the two inputs.
use vstd::prelude::*;

verus! {

/// Order-preserving key of a 32-bit float encoding: negative patterns are
/// flipped entirely, positive patterns get the sign bit set, so that
/// `spec_key32(a) <= spec_key32(b)` holds exactly when the float encoded by
/// `a` is at or below the one encoded by `b` in the `total_cmp` order.
pub open spec fn spec_key32(b: u32) -> u32 {
    if b & 0x8000_0000u32 != 0u32 {
        !b
    } else {
        b | 0x8000_0000u32
    }
}

/// Executable form of `spec_key32`.
pub fn key32(b: u32) -> (k: u32)
    ensures
        k == spec_key32(b),
{
    if b & 0x8000_0000u32 != 0u32 {
        !b
    } else {
        b | 0x8000_0000u32
    }
}

/// Order-preserving key of a 64-bit float encoding, used for plot bounds and
/// measurement cursors; same construction as `spec_key32`.
pub open spec fn spec_key64(b: u64) -> u64 {
    if b & 0x8000_0000_0000_0000u64 != 0u64 {
        !b
    } else {
        b | 0x8000_0000_0000_0000u64
    }
}

/// Executable form of `spec_key64`.
pub fn key64(b: u64) -> (k: u64)
    ensures
        k == spec_key64(b),
{
    if b & 0x8000_0000_0000_0000u64 != 0u64 {
        !b
    } else {
        b | 0x8000_0000_0000_0000u64
    }
}

/// An element type the pyramid can decimate: it carries a componentwise
/// envelope order `le` with a join (componentwise maximum) and a meet
/// (componentwise minimum). For real samples the order is total and
/// join/meet pick one of the two arguments; for I/Q pairs the order is
/// partial and join/meet combine components independently.
pub trait Downconvert: Sized + Copy {
    /// The envelope order: every component of `self` is at or below the
    /// corresponding component of `other`.
    spec fn le(self, other: Self) -> bool;

    /// Componentwise maximum.
    spec fn spec_join(self, other: Self) -> Self;

    /// Componentwise minimum.
    spec fn spec_meet(self, other: Self) -> Self;

    proof fn lemma_le_refl(a: Self)
        ensures
            a.le(a),
    ;

    proof fn lemma_le_trans(a: Self, b: Self, c: Self)
        requires
            a.le(b),
            b.le(c),
        ensures
            a.le(c),
    ;

    /// The join is an upper bound of both arguments.
    proof fn lemma_join_bound(a: Self, b: Self)
        ensures
            a.le(a.spec_join(b)),
            b.le(a.spec_join(b)),
    ;

    /// The meet is a lower bound of both arguments.
    proof fn lemma_meet_bound(a: Self, b: Self)
        ensures
            a.spec_meet(b).le(a),
            a.spec_meet(b).le(b),
    ;

    fn join(self, other: Self) -> (r: Self)
        ensures
            r == self.spec_join(other),
    ;

    fn meet(self, other: Self) -> (r: Self)
        ensures
            r == self.spec_meet(other),
    ;
}

impl Downconvert for u32 {
    open spec fn le(self, other: Self) -> bool {
        spec_key32(self) <= spec_key32(other)
    }

    open spec fn spec_join(self, other: Self) -> Self {
        if spec_key32(self) >= spec_key32(other) {
            self
        } else {
            other
        }
    }

    open spec fn spec_meet(self, other: Self) -> Self {
        if spec_key32(self) <= spec_key32(other) {
            self
        } else {
            other
        }
    }

    proof fn lemma_le_refl(a: Self) {
    }

    proof fn lemma_le_trans(a: Self, b: Self, c: Self) {
    }

    proof fn lemma_join_bound(a: Self, b: Self) {
    }

    proof fn lemma_meet_bound(a: Self, b: Self) {
    }

    fn join(self, other: Self) -> (r: Self) {
        if key32(self) >= key32(other) {
            self
        } else {
            other
        }
    }

    fn meet(self, other: Self) -> (r: Self) {
        if key32(self) <= key32(other) {
            self
        } else {
            other
        }
    }
}

/// One element of a complex (I/Q) signal: the bit patterns of the in-phase
/// and quadrature 32-bit float components.
#[derive(Clone, Copy, PartialEq, Eq, Structural, Debug)]
pub struct IqSample {
    pub re: u32,
    pub im: u32,
}

impl Downconvert for IqSample {
    open spec fn le(self, other: Self) -> bool {
        self.re.le(other.re) && self.im.le(other.im)
    }

    open spec fn spec_join(self, other: Self) -> Self {
        IqSample { re: self.re.spec_join(other.re), im: self.im.spec_join(other.im) }
    }

    open spec fn spec_meet(self, other: Self) -> Self {
        IqSample { re: self.re.spec_meet(other.re), im: self.im.spec_meet(other.im) }
    }

    proof fn lemma_le_refl(a: Self) {
    }

    proof fn lemma_le_trans(a: Self, b: Self, c: Self) {
    }

    proof fn lemma_join_bound(a: Self, b: Self) {
    }

    proof fn lemma_meet_bound(a: Self, b: Self) {
    }

    fn join(self, other: Self) -> (r: Self) {
        IqSample { re: self.re.join(other.re), im: self.im.join(other.im) }
    }

    fn meet(self, other: Self) -> (r: Self) {
        IqSample { re: self.re.meet(other.re), im: self.im.meet(other.im) }
    }
}

} // verus!
