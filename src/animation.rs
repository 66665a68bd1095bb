//! Interpolatable values and the per-entity interpolation record.

use vstd::prelude::*;
use crate::keyframes::{Curve, CubicSpline, CurveError};

verus! {

/// A value that can be blended towards another by a factor of type `F`.
///
/// A factor of zero is meant to give `self` and a factor of one `other`;
/// factors outside [0, 1] extrapolate by the same formula. Outside verified
/// code, `blend` is implemented as the value that `interpolate` computes.
pub trait InterpolatableValue<F>: Sized {
    /// The blend of `self` towards `other` by factor `t`.
    spec fn blend(self, other: Self, t: F) -> Self;

    fn interpolate(&self, other: &Self, t: F) -> (r: Self)
        ensures
            r == self.blend(*other, t),
    ;
}

/// How a record moves: between two fixed endpoints, or along a keyframe curve.
pub enum Motion<T, S> {
    Between { start: T, end: T },
    Along { curve: Curve<T, S> },
}

/// The interpolation state of one value of one entity: how it moves, and
/// the value last computed, which is all that consumers read.
pub struct InterpolatingComponent<T, S> {
    motion: Motion<T, S>,
    current: T,
}

impl<T: Copy, S> InterpolatingComponent<T, S> {
    pub closed spec fn motion(&self) -> &Motion<T, S> {
        &self.motion
    }

    /// The value last computed.
    pub closed spec fn current_value(&self) -> T {
        self.current
    }

    /// A keyframed record's curve holds at least two keyframes.
    pub open spec fn wf(&self) -> bool {
        match self.motion() {
            Motion::Between { .. } => true,
            Motion::Along { curve } => curve.wf(),
        }
    }

    /// The value of the record at factor `t`.
    pub open spec fn value_at<F>(&self, t: F) -> T
        where T: InterpolatableValue<F>, S: CubicSpline<T, F>
    {
        match self.motion() {
            Motion::Between { start, end } => start.blend(*end, t),
            Motion::Along { curve } => curve.sampled(t),
        }
    }

    /// A two-point record; its current value starts at `start`.
    pub fn new(start: T, end: T) -> (r: Self)
        ensures
            r.wf(),
            *r.motion() == (Motion::<T, S>::Between { start, end }),
            r.current_value() == start,
    {
        InterpolatingComponent { motion: Motion::Between { start, end }, current: start }
    }

    /// A keyframed record over the curve of the given tension through
    /// `keyframes`; its current value starts at the first keyframe. Fails
    /// as [`Curve::new`] does, with fewer than two keyframes.
    pub fn curved<F>(tension: F, keyframes: Vec<T>) -> (r: Result<Self, CurveError>)
        where S: CubicSpline<T, F>
        ensures
            keyframes@.len() < 2 <==> r is Err,
            r matches Err(e) ==> e == CurveError::TooFewKeyframes(keyframes@.len() as usize),
            r matches Ok(c) ==> c.wf() && (match c.motion() {
                Motion::Along { curve } => curve.keyframe_seq() == keyframes@
                    && curve.spline() == S::compiled(tension, &keyframes),
                Motion::Between { .. } => false,
            }) && c.current_value() == keyframes@[0],
    {
        match Curve::new(tension, keyframes) {
            Ok(curve) => {
                let first = *curve.first();
                Ok(InterpolatingComponent { motion: Motion::Along { curve }, current: first })
            },
            Err(e) => Err(e),
        }
    }

    /// The value last computed.
    pub fn current(&self) -> (r: T)
        ensures
            r == self.current_value(),
    {
        self.current
    }

    /// Whether the record follows a keyframe curve.
    pub fn is_keyframed(&self) -> (r: bool)
        ensures
            r == (self.motion() is Along),
    {
        match &self.motion {
            Motion::Between { .. } => false,
            Motion::Along { .. } => true,
        }
    }

    /// Recomputes the current value at factor `t`: the two-point blend, or
    /// the curve sampled at `t`. How the record moves does not change.
    pub fn interpolate<F>(&mut self, t: F)
        where T: InterpolatableValue<F>, S: CubicSpline<T, F>
        requires
            old(self).wf(),
        ensures
            final(self).wf(),
            final(self).motion() == old(self).motion(),
            final(self).current_value() == old(self).value_at(t),
    {
        let v = match &self.motion {
            Motion::Between { start, end } => start.interpolate(end, t),
            Motion::Along { curve } => curve.sample(t),
        };
        self.current = v;
    }
}

/// Advancing is restartable: it keeps no cursor, so a record advanced at
/// `t1` and then at `t2` holds what the same record advanced at `t2` alone
/// holds, whatever `t1` was.
pub proof fn lemma_interpolate_restartable<T: Copy, S, F>(
    r0: InterpolatingComponent<T, S>,
    t1: F,
    t2: F,
    r1: InterpolatingComponent<T, S>,
    r2: InterpolatingComponent<T, S>,
    r3: InterpolatingComponent<T, S>,
)
    where T: InterpolatableValue<F>, S: CubicSpline<T, F>
    requires
        r1.motion() == r0.motion() && r1.current_value() == r0.value_at(t1),
        r2.motion() == r1.motion() && r2.current_value() == r1.value_at(t2),
        r3.motion() == r0.motion() && r3.current_value() == r0.value_at(t2),
    ensures
        r2 == r3,
{
}

} // verus!
