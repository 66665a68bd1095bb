//! Keyframe curves: a cubic cardinal spline through an ordered sequence of
//! keyframe values, sampled by normalized progress.

use vstd::prelude::*;

verus! {

/// A piecewise cubic curve compiled through a sequence of keyframes.
///
/// Implemented by the host for each keyframed value type, with the spline
/// arithmetic of its choice; the library decides when a curve may be built
/// and at which parameter it is evaluated. Outside verified code, `compiled`
/// and `position` are implemented as the values that `compile` and
/// `sample_scaled` compute.
pub trait CubicSpline<T, F>: Sized {
    /// The spline of the given tension through `keyframes`.
    spec fn compiled(tension: F, keyframes: &Vec<T>) -> Self;

    /// The curve's position at parameter `segments * t`, for a curve of
    /// `segments` segments.
    spec fn position(&self, segments: usize, t: F) -> T;

    /// Compiles the cardinal spline of the given tension through
    /// `keyframes`, in order.
    fn compile(tension: F, keyframes: &Vec<T>) -> (r: Self)
        requires
            keyframes@.len() >= 2,
        ensures
            r == Self::compiled(tension, keyframes),
    ;

    /// Evaluates the curve at parameter `segments * t`: the progress `t`
    /// is scaled by the number of segments, so that keyframes are traversed
    /// in proportion whatever their count.
    fn sample_scaled(&self, segments: usize, t: F) -> (r: T)
        ensures
            r == self.position(segments, t),
    ;
}

/// Why a curve could not be built.
#[derive(Debug, Clone, Copy, PartialEq, Eq)]
pub enum CurveError {
    /// A curve needs at least two keyframes; the count given is kept.
    TooFewKeyframes(usize),
}

/// A keyframe curve: the keyframes it was built from and its compiled spline.
/// Immutable after construction.
pub struct Curve<T, S> {
    keyframes: Vec<T>,
    spline: S,
}

impl<T, S> Curve<T, S> {
    /// The keyframes, in order.
    pub closed spec fn keyframe_seq(&self) -> Seq<T> {
        self.keyframes@
    }

    /// The compiled spline.
    pub closed spec fn spline(&self) -> S {
        self.spline
    }

    /// A curve holds at least two keyframes.
    pub open spec fn wf(&self) -> bool {
        self.keyframe_seq().len() >= 2
    }

    /// The number of segments of the open curve: one fewer than the keyframes.
    pub open spec fn segments(&self) -> usize {
        (self.keyframe_seq().len() - 1) as usize
    }

    /// The value that sampling at progress `t` gives.
    pub open spec fn sampled<F>(&self, t: F) -> T
        where S: CubicSpline<T, F>
    {
        self.spline().position(self.segments(), t)
    }

    /// Builds the curve of the given tension through `keyframes`. Fails,
    /// without compiling anything, when there are fewer than two keyframes.
    pub fn new<F>(tension: F, keyframes: Vec<T>) -> (r: Result<Self, CurveError>)
        where S: CubicSpline<T, F>
        ensures
            keyframes@.len() < 2 <==> r is Err,
            r matches Err(e) ==> e == CurveError::TooFewKeyframes(keyframes@.len() as usize),
            r matches Ok(c) ==> c.wf() && c.keyframe_seq() == keyframes@
                && c.spline() == S::compiled(tension, &keyframes),
    {
        if keyframes.len() < 2 {
            return Err(CurveError::TooFewKeyframes(keyframes.len()));
        }
        let spline = S::compile(tension, &keyframes);
        Ok(Curve { keyframes, spline })
    }

    /// The number of segments: one fewer than the keyframes.
    pub fn segment_count(&self) -> (n: usize)
        requires
            self.wf(),
        ensures
            n == self.segments(),
    {
        self.keyframes.len() - 1
    }

    /// The first keyframe.
    pub fn first(&self) -> (r: &T)
        requires
            self.wf(),
        ensures
            *r == self.keyframe_seq()[0],
    {
        &self.keyframes[0]
    }

    /// Maps progress `t` (nominally in [0, 1]) to the spline's position at
    /// `segment_count * t`. A pure function of `t`.
    pub fn sample<F>(&self, t: F) -> (r: T)
        where S: CubicSpline<T, F>
        requires
            self.wf(),
        ensures
            r == self.sampled(t),
    {
        let n = self.segment_count();
        self.spline.sample_scaled(n, t)
    }
}

/// Sampling is deterministic: curves built from the same tension and
/// keyframes give the same value at the same progress, whatever was sampled
/// before.
pub proof fn lemma_sample_deterministic<T, S, F>(
    tension: F,
    keyframes: Vec<T>,
    c1: Curve<T, S>,
    c2: Curve<T, S>,
    t: F,
)
    where S: CubicSpline<T, F>
    requires
        c1.keyframe_seq() == keyframes@,
        c1.spline() == S::compiled(tension, &keyframes),
        c2.keyframe_seq() == keyframes@,
        c2.spline() == S::compiled(tension, &keyframes),
    ensures
        c1.sampled(t) == c2.sampled(t),
{
}

} // verus!
