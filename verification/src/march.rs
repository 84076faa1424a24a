//! Sphere tracing under a step budget.
//!
//! The tracer walks along one ray. At each depth it asks a probe how the
//! scene looks from there, and either stops on the surface or moves on to the
//! depth the probe names. What a depth is, and how far it is safe to move, is
//! the probe's business; the tracer owns the walk and the budget.

use vstd::prelude::*;

verus! {

/// The step budget of one ray.
pub const MAX_STEPS: usize = 50;

/// What one look at the scene tells the tracer.
#[derive(Debug, PartialEq, Eq)]
pub enum Step<D> {
    /// The surface is within reach of the probed depth.
    Hit,
    /// The surface is farther off, and the ray may move to this depth.
    Advance(D),
}

/// How the march of one ray ended.
#[derive(Debug, PartialEq, Eq)]
pub enum Trace<D> {
    /// The ray met the surface at this depth.
    Hit(D),
    /// The budget ran out before the ray met anything.
    Miss,
}

/// Whether `depths` is a stretch of a march: probed at any depth but the
/// last, the probe may tell the tracer to move to the depth that follows.
pub open spec fn advances<D, F: Fn(D) -> Step<D>>(probe: F, depths: Seq<D>) -> bool {
    forall|i: int|
        0 <= i < depths.len() - 1 ==> probe.ensures(
            (#[trigger] depths[i],),
            Step::Advance(depths[i + 1]),
        )
}

/// Whether `depths` is a walk of the tracer from `start`.
pub open spec fn walk<D, F: Fn(D) -> Step<D>>(probe: F, start: D, depths: Seq<D>) -> bool {
    &&& depths.len() >= 1
    &&& depths[0] == start
    &&& advances(probe, depths)
}

/// Whether a march from `start` with a budget of `max_steps` probes may end
/// in `trace`.
///
/// It ends in a hit at a depth when some walk of at most `max_steps` depths
/// leads there and the probe reports the surface at it. It ends in a miss when
/// some walk was told to move on `max_steps` times.
pub open spec fn marched<D, F: Fn(D) -> Step<D>>(
    probe: F,
    start: D,
    max_steps: nat,
    trace: Trace<D>,
) -> bool {
    match trace {
        Trace::Hit(depth) => exists|depths: Seq<D>|
            {
                &&& #[trigger] walk(probe, start, depths)
                &&& depths.len() <= max_steps
                &&& depths.last() == depth
                &&& probe.ensures((depth,), Step::Hit)
            },
        Trace::Miss => exists|depths: Seq<D>|
            {
                &&& #[trigger] walk(probe, start, depths)
                &&& depths.len() == max_steps + 1
            },
    }
}

/// Whether the probe answers every depth in one way only.
pub open spec fn single_valued<D, F: Fn(D) -> Step<D>>(probe: F) -> bool {
    forall|depth: D, first: Step<D>, second: Step<D>|
        #[trigger] probe.ensures((depth,), first) && #[trigger] probe.ensures((depth,), second)
            ==> first == second
}

/// Marches from `start`, probing at most `max_steps` depths.
///
/// Where there is a budget at all, the probe must accept the starting depth
/// and every depth it sends the tracer to.
pub fn march<D: Copy, F: Fn(D) -> Step<D>>(start: D, max_steps: usize, probe: F) -> (trace: Trace<D>)
    requires
        max_steps > 0 ==> probe.requires((start,)),
        forall|depth: D, next: D|
            probe.requires((depth,)) && #[trigger] probe.ensures((depth,), Step::Advance(next))
                ==> probe.requires((next,)),
    ensures
        marched(probe, start, max_steps as nat, trace),
{
    let mut depth = start;
    let mut taken: usize = 0;
    let ghost mut depths: Seq<D> = seq![start];
    while taken < max_steps
        invariant
            taken <= max_steps,
            depths.len() == taken + 1,
            depths.last() == depth,
            walk(probe, start, depths),
            max_steps > 0 ==> probe.requires((depth,)),
            forall|depth: D, next: D|
                probe.requires((depth,)) && #[trigger] probe.ensures((depth,), Step::Advance(next))
                    ==> probe.requires((next,)),
        decreases max_steps - taken,
    {
        match probe(depth) {
            Step::Hit => {
                return Trace::Hit(depth);
            },
            Step::Advance(next) => {
                proof {
                    depths = depths.push(next);
                }
                depth = next;
            },
        }
        taken += 1;
    }
    Trace::Miss
}

/// Two walks from one start under a single-valued probe pass through the
/// same depths for as long as both go on.
proof fn lemma_walks_agree<D, F: Fn(D) -> Step<D>>(
    probe: F,
    start: D,
    first: Seq<D>,
    second: Seq<D>,
    i: int,
)
    requires
        single_valued(probe),
        walk(probe, start, first),
        walk(probe, start, second),
        0 <= i < first.len(),
        i < second.len(),
    ensures
        first[i] == second[i],
    decreases i,
{
    if i > 0 {
        lemma_walks_agree(probe, start, first, second, i - 1);
        assert(probe.ensures((first[i - 1],), Step::Advance(first[i])));
        assert(probe.ensures((second[i - 1],), Step::Advance(second[i])));
    }
}

/// A march is decided by its probe: where the probe answers every depth in
/// one way only, a march from a given start with a given budget has one end.
pub proof fn lemma_march_is_determined<D, F: Fn(D) -> Step<D>>(
    probe: F,
    start: D,
    max_steps: nat,
    first: Trace<D>,
    second: Trace<D>,
)
    requires
        single_valued(probe),
        marched(probe, start, max_steps, first),
        marched(probe, start, max_steps, second),
    ensures
        first == second,
{
    match (first, second) {
        (Trace::Hit(a), Trace::Hit(b)) => {
            let run_a = choose|depths: Seq<D>|
                #[trigger] walk(probe, start, depths) && depths.len() <= max_steps
                    && depths.last() == a && probe.ensures((a,), Step::Hit);
            let run_b = choose|depths: Seq<D>|
                #[trigger] walk(probe, start, depths) && depths.len() <= max_steps
                    && depths.last() == b && probe.ensures((b,), Step::Hit);
            lemma_hit_ends_walk(probe, start, run_a, run_b);
            lemma_hit_ends_walk(probe, start, run_b, run_a);
            lemma_walks_agree(probe, start, run_a, run_b, run_a.len() - 1);
        },
        (Trace::Hit(a), Trace::Miss) => {
            let run_a = choose|depths: Seq<D>|
                #[trigger] walk(probe, start, depths) && depths.len() <= max_steps
                    && depths.last() == a && probe.ensures((a,), Step::Hit);
            let run_b = choose|depths: Seq<D>|
                #[trigger] walk(probe, start, depths) && depths.len() == max_steps + 1;
            lemma_hit_ends_walk(probe, start, run_a, run_b);
        },
        (Trace::Miss, Trace::Hit(b)) => {
            let run_a = choose|depths: Seq<D>|
                #[trigger] walk(probe, start, depths) && depths.len() == max_steps + 1;
            let run_b = choose|depths: Seq<D>|
                #[trigger] walk(probe, start, depths) && depths.len() <= max_steps
                    && depths.last() == b && probe.ensures((b,), Step::Hit);
            lemma_hit_ends_walk(probe, start, run_b, run_a);
        },
        (Trace::Miss, Trace::Miss) => {},
    }
}

/// Under a single-valued probe no walk goes on past a depth at which the
/// probe reports the surface.
proof fn lemma_hit_ends_walk<D, F: Fn(D) -> Step<D>>(
    probe: F,
    start: D,
    stopped: Seq<D>,
    other: Seq<D>,
)
    requires
        single_valued(probe),
        walk(probe, start, stopped),
        walk(probe, start, other),
        probe.ensures((stopped.last(),), Step::Hit),
    ensures
        other.len() <= stopped.len(),
{
    if other.len() > stopped.len() {
        let last = stopped.len() - 1;
        lemma_walks_agree(probe, start, stopped, other, last);
        assert(probe.ensures((other[last],), Step::Advance(other[last + 1])));
        assert(Step::<D>::Hit != Step::Advance(other[last + 1]));
    }
}

/// A ray that never comes within reach of a surface ends in a miss, after
/// exactly as many probes as the budget allows: the tracer always stops.
pub proof fn lemma_unreachable_surface_misses<D, F: Fn(D) -> Step<D>>(
    probe: F,
    start: D,
    max_steps: nat,
    trace: Trace<D>,
)
    requires
        forall|depth: D| !probe.ensures((depth,), Step::Hit),
        marched(probe, start, max_steps, trace),
    ensures
        trace == Trace::<D>::Miss,
        exists|depths: Seq<D>| #[trigger] walk(probe, start, depths) && depths.len() == max_steps + 1,
{
}

} // verus!
