//! Rays, and the control of the radiance estimate along a path.
//!
//! The estimate for a ray is black once the depth budget is spent. Otherwise
//! the ray is traced through the world: a miss gives the sky, a hit that the
//! material absorbs gives black, and a hit that scatters gives the
//! attenuation times the estimate for the scattered ray with one bounce
//! less. Tracing and multiplying are the caller's; which of these happens is
//! decided here.
use crate::scalar::Scalar;
use crate::vec3::Vec3;
use vstd::prelude::*;

verus! {

/// The encoding of `0.001`, the lower end of every trace: a scattered ray
/// must not hit the surface it starts on.
pub const SHADOW_GUARD_BITS: u64 = 0x3F50_624D_D2F1_A9FC;

#[derive(Clone, Copy, Debug, PartialEq, Eq, Structural)]
pub struct Ray {
    pub dir: Vec3,
    pub orig: Vec3,
    pub time: Scalar,
}

/// What tracing a ray through the world gave.
#[derive(Clone, Copy, Debug, PartialEq, Eq, Structural)]
pub enum Outcome {
    /// Nothing was hit.
    Miss,
    /// Something was hit and its material absorbed the ray.
    Absorbed,
    /// Something was hit and its material scattered the ray.
    Scattered,
}

/// Where a path ends.
#[derive(Clone, Copy, Debug, PartialEq, Eq, Structural)]
pub enum Radiance {
    Black,
    Sky,
}

/// What the estimate needs next.
#[derive(Clone, Copy, Debug, PartialEq, Eq, Structural)]
pub enum Step {
    /// The path has ended; the estimate is the product of the attenuations
    /// gathered so far and this radiance.
    Done(Radiance),
    /// Trace the current ray over `(t_min, t_max)` and come back with the
    /// outcome; `depth` bounces are left, this one included.
    Trace { t_min: Scalar, t_max: Scalar, depth: i32 },
}

/// The step taken with `depth` bounces left.
pub open spec fn ray_color_spec(depth: i32) -> Step {
    if depth <= 0 {
        Step::Done(Radiance::Black)
    } else {
        Step::Trace {
            t_min: Scalar { bits: SHADOW_GUARD_BITS },
            t_max: Scalar { bits: crate::scalar::INFINITY_BITS },
            depth,
        }
    }
}

/// The step taken after a trace with `depth` bounces left came back.
pub open spec fn scattered_spec(depth: i32, outcome: Outcome) -> Step {
    match outcome {
        Outcome::Miss => Step::Done(Radiance::Sky),
        Outcome::Absorbed => Step::Done(Radiance::Black),
        Outcome::Scattered => ray_color_spec((depth - 1) as i32),
    }
}

/// How a path ends when its traces come back with `outcomes` in turn, and
/// how many traces it takes. A path that runs out of outcomes before it
/// ends is cut off black.
pub open spec fn path_spec(depth: i32, outcomes: Seq<Outcome>) -> (Radiance, nat)
    decreases outcomes.len(),
{
    if depth <= 0 || outcomes.len() == 0 {
        (Radiance::Black, 0)
    } else {
        match outcomes[0] {
            Outcome::Miss => (Radiance::Sky, 1),
            Outcome::Absorbed => (Radiance::Black, 1),
            Outcome::Scattered => {
                let rest = path_spec((depth - 1) as i32, outcomes.drop_first());
                (rest.0, rest.1 + 1)
            },
        }
    }
}

impl Ray {
    pub fn new(orig: Vec3, dir: Vec3, time: Scalar) -> (r: Ray)
        ensures
            r == (Ray { dir, orig, time }),
    {
        Ray { dir, orig, time }
    }

    /// Begins the estimate for a ray with `depth` bounces left: black at
    /// once when none is left, else a trace from `0.001` to infinity.
    pub fn ray_color(depth: i32) -> (step: Step)
        ensures
            step == ray_color_spec(depth),
    {
        if depth <= 0 {
            return Step::Done(Radiance::Black);
        }
        Step::Trace { t_min: Scalar::from_bits(SHADOW_GUARD_BITS), t_max: Scalar::infinity(), depth }
    }

    /// Goes on after the trace asked for with `depth` bounces left.
    pub fn scattered(depth: i32, outcome: Outcome) -> (step: Step)
        requires
            depth > 0,
        ensures
            step == scattered_spec(depth, outcome),
    {
        match outcome {
            Outcome::Miss => Step::Done(Radiance::Sky),
            Outcome::Absorbed => Step::Done(Radiance::Black),
            Outcome::Scattered => Ray::ray_color(depth - 1),
        }
    }
}

/// With no bounce left the estimate is black whatever the world holds, and
/// no ray is traced.
pub proof fn lemma_no_depth_is_black(depth: i32, outcomes: Seq<Outcome>)
    requires
        depth <= 0,
    ensures
        ray_color_spec(depth) == Step::Done(Radiance::Black),
        path_spec(depth, outcomes) == (Radiance::Black, 0nat),
{
}

/// A path traces at most as many rays as it has bounces.
pub proof fn lemma_path_bounded(depth: i32, outcomes: Seq<Outcome>)
    ensures
        path_spec(depth, outcomes).1 <= if depth <= 0 {
            0
        } else {
            depth as int
        },
        path_spec(depth, outcomes).1 <= outcomes.len(),
    decreases outcomes.len(),
{
    if depth > 0 && outcomes.len() > 0 {
        lemma_path_bounded((depth - 1) as i32, outcomes.drop_first());
    }
}

} // verus!
