//! A time-varying value interpolation engine.
//!
//! Records hold either two endpoints or a keyframe curve of some value type,
//! and a current value that the advance pass recomputes from a shared
//! interpolation factor. The publish passes copy the current values into the
//! host's renderable state: transforms, and material colors with a
//! self-healing fallback when a material has gone missing.
//!
//! The library is generic over the value type and over the factor type: the
//! arithmetic of a blend is supplied by the value type through
//! [`animation::InterpolatableValue`], and the compiled spline of a keyframe
//! curve through [`keyframes::CubicSpline`].

pub mod animation;
pub mod keyframes;
pub mod publish;
pub mod store;
pub mod table;
