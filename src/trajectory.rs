//! The plain-value setup of the trajectory view: how many thread groups each
//! compute program is dispatched with, and the animation parameters of each
//! kind of flow.
use vstd::prelude::*;

verus! {

/// The side of the square tile of invocations that one thread group covers.
pub const TILE_SIZE: u32 = 16;

/// The number of tiles needed to cover `x` cells.
pub open spec fn tiles_for(x: int) -> int {
    (x + TILE_SIZE - 1) / TILE_SIZE as int
}

/// A two-dimensional extent, in cells.
#[derive(Clone, Copy, Debug, PartialEq, Eq, Structural)]
pub struct Extent {
    pub width: u32,
    pub height: u32,
}

/// The thread groups that cover `extent` cells along one axis: the fewest
/// tiles whose cells reach at least `extent`.
pub fn group_count(extent: u32) -> (r: u32)
    ensures
        r as int == tiles_for(extent as int),
        r as int * TILE_SIZE >= extent,
        r == 0 || (r as int - 1) * TILE_SIZE < extent,
{
    let whole = extent / TILE_SIZE;
    if extent % TILE_SIZE == 0 {
        whole
    } else {
        whole + 1
    }
}

/// The thread groups along each axis that cover `extent`.
pub fn threadgroup_count(extent: Extent) -> (r: (u32, u32))
    ensures
        r.0 as int == tiles_for(extent.width as int),
        r.1 as int == tiles_for(extent.height as int),
{
    (group_count(extent.width), group_count(extent.height))
}

/// The kind of flow that the lattice simulates.
#[derive(Clone, Copy, Debug, PartialEq, Eq, Structural)]
pub enum FlowType {
    Poiseuille,
    LidDrivenCavity,
    PigmentsDiffuse,
    InkDiffuse,
}

/// How the particle trajectories are animated. The factors are given in
/// hundredths: a fade-out of 95 keeps 0.95 of the canvas each frame.
#[derive(Clone, Copy, Debug, PartialEq, Eq, Structural)]
pub struct AnimationParams {
    /// Frames that a particle lives before it is seeded anew.
    pub life_time: u32,
    /// The share of the canvas kept by each fade-out, in hundredths.
    pub fade_out_hundredths: u32,
    /// The speed factor, in hundredths.
    pub speed_hundredths: u32,
}

/// The animation of each flow that has trajectories; diffusion flows have none.
pub open spec fn animation_of(flow: FlowType) -> Option<AnimationParams> {
    match flow {
        FlowType::Poiseuille => Some(AnimationParams { life_time: 60, fade_out_hundredths: 95, speed_hundredths: 2000 }),
        FlowType::LidDrivenCavity => Some(AnimationParams { life_time: 600, fade_out_hundredths: 99, speed_hundredths: 2000 }),
        _ => None,
    }
}

/// The animation parameters of `flow`, if trajectories are drawn for it.
pub fn animation_params(flow: FlowType) -> (r: Option<AnimationParams>)
    ensures
        r == animation_of(flow),
{
    match flow {
        FlowType::Poiseuille => Some(AnimationParams { life_time: 60, fade_out_hundredths: 95, speed_hundredths: 2000 }),
        FlowType::LidDrivenCavity => Some(AnimationParams { life_time: 600, fade_out_hundredths: 99, speed_hundredths: 2000 }),
        FlowType::PigmentsDiffuse => None,
        FlowType::InkDiffuse => None,
    }
}

/// What the trajectory node is built from, as plain values: the thread
/// groups of its two compute programs and its animation.
#[derive(Clone, Copy, Debug, PartialEq, Eq, Structural)]
pub struct TrajectoryPlan {
    /// Thread groups of the program that moves the particles: they cover the particle grid.
    pub particle_groups: Extent,
    /// Thread groups of the program that fades the canvas: they cover the canvas.
    pub fade_groups: Extent,
    pub animation: AnimationParams,
}

impl TrajectoryPlan {
    /// The plan for a canvas, a particle grid and a flow; `None` for a flow
    /// without trajectories.
    pub fn new(canvas: Extent, particles: Extent, flow: FlowType) -> (r: Option<Self>)
        ensures
            r is Some <==> animation_of(flow) is Some,
            r is Some ==> ({
                let p = r->Some_0;
                &&& p.particle_groups.width as int == tiles_for(particles.width as int)
                &&& p.particle_groups.height as int == tiles_for(particles.height as int)
                &&& p.fade_groups.width as int == tiles_for(canvas.width as int)
                &&& p.fade_groups.height as int == tiles_for(canvas.height as int)
                &&& Some(p.animation) == animation_of(flow)
            }),
    {
        match animation_params(flow) {
            None => None,
            Some(animation) => {
                let (px, py) = threadgroup_count(particles);
                let (fx, fy) = threadgroup_count(canvas);
                Some(
                    TrajectoryPlan {
                        particle_groups: Extent { width: px, height: py },
                        fade_groups: Extent { width: fx, height: fy },
                        animation,
                    },
                )
            },
        }
    }
}

} // verus!
