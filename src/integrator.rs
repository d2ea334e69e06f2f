//! The control flow of the path integrator.
//!
//! A path starts with a budget of bounces. Each cast ray either leaves the
//! scene (and picks up the background light), is absorbed by the surface it
//! hit, or is scattered into a new ray that spends one unit of the budget. A
//! path that runs out of budget, or is absorbed, carries no light.
use vstd::prelude::*;

verus! {

/// What the scene and the material of the surface that was hit report for one
/// cast ray.
#[derive(PartialEq, Eq, Structural, Clone, Copy, Debug)]
pub enum Bounce {
    /// The ray hit nothing in the legal range and escaped to the background.
    Missed,
    /// The ray hit a surface whose material absorbed it.
    Absorbed,
    /// The ray hit a surface whose material scattered it into a new ray.
    Scattered,
}

/// How a path ended.
#[derive(PartialEq, Eq, Structural, Clone, Copy, Debug)]
pub enum PathEnd {
    /// The last ray escaped: the path carries the background light, filtered
    /// by every surface it was scattered by.
    Escaped,
    /// A surface absorbed the path.
    Absorbed,
    /// The bounce budget ran out before the path escaped.
    DepthExhausted,
}

/// The progress of one path.
#[derive(PartialEq, Eq, Structural, Clone, Copy, Debug)]
pub enum PathState {
    /// A ray is to be cast, with `depth_left` bounces left in the budget.
    Tracing { depth_left: u64 },
    /// The path is over.
    Finished { end: PathEnd },
}

/// The state in which a path with a budget of `depth_limit` bounces starts.
pub open spec fn initial(depth_limit: u64) -> PathState {
    if depth_limit == 0 {
        PathState::Finished { end: PathEnd::DepthExhausted }
    } else {
        PathState::Tracing { depth_left: depth_limit }
    }
}

/// The state after the ray cast in state `s` reported `b`.
pub open spec fn step(s: PathState, b: Bounce) -> PathState {
    match s {
        PathState::Finished { .. } => s,
        PathState::Tracing { depth_left } => match b {
            Bounce::Missed => PathState::Finished { end: PathEnd::Escaped },
            Bounce::Absorbed => PathState::Finished { end: PathEnd::Absorbed },
            Bounce::Scattered => if depth_left <= 1 {
                PathState::Finished { end: PathEnd::DepthExhausted }
            } else {
                PathState::Tracing { depth_left: (depth_left - 1) as u64 }
            },
        },
    }
}

/// The state after the rays cast from state `s` reported `bounces` in turn;
/// reports that come after the path is over change nothing.
pub open spec fn run(s: PathState, bounces: Seq<Bounce>) -> PathState
    decreases bounces.len(),
{
    if bounces.len() == 0 {
        s
    } else {
        run(step(s, bounces[0]), bounces.drop_first())
    }
}

impl PathEnd {
    /// Whether a path that ended this way brings any light back: only an
    /// escaped path does; the others are black.
    pub fn carries_light(&self) -> (c: bool)
        ensures
            c == (*self == PathEnd::Escaped),
    {
        match self {
            PathEnd::Escaped => true,
            _ => false,
        }
    }
}

impl PathState {
    /// A path with a budget of `depth_limit` bounces. With no budget at all
    /// the path is over before any ray is cast, and is black.
    pub fn start(depth_limit: u64) -> (s: PathState)
        ensures
            s == initial(depth_limit),
            depth_limit == 0 ==> s == (PathState::Finished { end: PathEnd::DepthExhausted }),
    {
        if depth_limit == 0 {
            PathState::Finished { end: PathEnd::DepthExhausted }
        } else {
            PathState::Tracing { depth_left: depth_limit }
        }
    }

    /// The state after the ray cast in this state reported `b`.
    pub fn advance(&self, b: Bounce) -> (s: PathState)
        ensures
            s == step(*self, b),
    {
        match *self {
            PathState::Finished { end } => PathState::Finished { end },
            PathState::Tracing { depth_left } => match b {
                Bounce::Missed => PathState::Finished { end: PathEnd::Escaped },
                Bounce::Absorbed => PathState::Finished { end: PathEnd::Absorbed },
                Bounce::Scattered => if depth_left <= 1 {
                    PathState::Finished { end: PathEnd::DepthExhausted }
                } else {
                    PathState::Tracing { depth_left: depth_left - 1 }
                },
            },
        }
    }

    /// Whether a ray is still to be cast.
    pub fn is_tracing(&self) -> (t: bool)
        ensures
            t == (*self is Tracing),
    {
        match self {
            PathState::Tracing { .. } => true,
            PathState::Finished { .. } => false,
        }
    }
}

/// A finished path stays finished, whatever is reported after.
pub proof fn lemma_finished_is_final(end: PathEnd, bounces: Seq<Bounce>)
    ensures
        run(PathState::Finished { end }, bounces) == (PathState::Finished { end }),
    decreases bounces.len(),
{
    if bounces.len() > 0 {
        lemma_finished_is_final(end, bounces.drop_first());
    }
}

/// A path without budget is black whatever the ray and the scene: it ends
/// with its budget exhausted before any report is taken into account.
pub proof fn lemma_zero_depth_is_black(bounces: Seq<Bounce>)
    ensures
        run(initial(0), bounces) == (PathState::Finished { end: PathEnd::DepthExhausted }),
{
    lemma_finished_is_final(PathEnd::DepthExhausted, bounces);
}

/// The budget bounds the work of a path: once as many rays as the budget
/// allows have been cast, the path is over.
pub proof fn lemma_depth_budget_ends_path(depth_limit: u64, bounces: Seq<Bounce>)
    requires
        bounces.len() >= depth_limit,
    ensures
        run(initial(depth_limit), bounces) is Finished,
    decreases bounces.len(),
{
    if depth_limit == 0 {
        lemma_zero_depth_is_black(bounces);
    } else {
        let next = step(initial(depth_limit), bounces[0]);
        match next {
            PathState::Finished { end } => {
                lemma_finished_is_final(end, bounces.drop_first());
            },
            PathState::Tracing { depth_left } => {
                assert(depth_left == depth_limit - 1);
                assert(initial(depth_left) == next);
                lemma_depth_budget_ends_path(depth_left, bounces.drop_first());
            },
        }
    }
}

/// A path scattered at every bounce is over exactly when its budget is spent:
/// before that it is still tracing, with one bounce less for each report.
pub proof fn lemma_scattering_spends_budget(depth_limit: u64, n: nat)
    requires
        n < depth_limit,
    ensures
        run(initial(depth_limit), Seq::new(n, |i: int| Bounce::Scattered)) == (PathState::Tracing {
            depth_left: (depth_limit - n) as u64,
        }),
    decreases n,
{
    if n > 0 {
        let s = Seq::new(n, |i: int| Bounce::Scattered);
        let next = step(initial(depth_limit), Bounce::Scattered);
        assert(next == initial((depth_limit - 1) as u64));
        assert(s.drop_first() =~= Seq::new((n - 1) as nat, |i: int| Bounce::Scattered));
        lemma_scattering_spends_budget((depth_limit - 1) as u64, (n - 1) as nat);
    }
}

} // verus!
