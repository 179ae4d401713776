//! The fixed order of a simulation step: integration, then the relaxation
//! sweep once per solver iteration, then the velocity update. A sweep solves
//! each body's springs in list order, then its shape constraint, bodies in
//! insertion order, then makes one collision pass over every particle pair,
//! then clamps to the bounds.
use vstd::prelude::*;
use crate::pair_precedes;

verus! {

/// The pairs `(i, j)` with `i < j < n` that particle `i` leads, `j` rising.
pub open spec fn pair_row(i: int, n: int) -> Seq<(int, int)> {
    Seq::new((n - i - 1) as nat, |k: int| (i, i + 1 + k))
}

/// The pairs led by particles `0..i` out of `n`, in the order a collision
/// pass visits them.
pub open spec fn pairs_led_by(i: nat, n: int) -> Seq<(int, int)>
    decreases i,
{
    if i == 0 {
        seq![]
    } else {
        pairs_led_by((i - 1) as nat, n) + pair_row(i - 1, n)
    }
}

/// An optional index pair, widened to mathematical integers.
pub open spec fn index_pair_opt(o: Option<(usize, usize)>) -> Option<(int, int)> {
    match o {
        Some(p) => Some((p.0 as int, p.1 as int)),
        None => None,
    }
}

/// The first pair a collision pass over `n` particles resolves.
pub open spec fn first_pair(n: int) -> Option<(int, int)> {
    if n >= 2 {
        Some((0, 1))
    } else {
        None
    }
}

/// The pair a collision pass over `n` particles resolves after `(i, j)`: the
/// next partner of `i`, or else the first partner of `i + 1`.
pub open spec fn pair_after(n: int, i: int, j: int) -> Option<(int, int)> {
    if j + 1 < n {
        Some((i, j + 1))
    } else if i + 2 < n {
        Some((i + 1, i + 2))
    } else {
        None
    }
}

/// The first pair of a collision pass over `n` particles: `(0, 1)`, or none
/// where there are fewer than two particles.
pub fn first_collision_pair(n: usize) -> (r: Option<(usize, usize)>)
    ensures
        index_pair_opt(r) == first_pair(n as int),
{
    if n >= 2 {
        Some((0, 1))
    } else {
        None
    }
}

/// The pair a collision pass over `n` particles resolves after `(i, j)`, or
/// none where `(i, j)` is the last.
pub fn next_collision_pair(n: usize, i: usize, j: usize) -> (r: Option<(usize, usize)>)
    requires
        i < j < n,
    ensures
        index_pair_opt(r) == pair_after(n as int, i as int, j as int),
{
    if j + 1 < n {
        Some((i, j + 1))
    } else if i + 2 < n {
        Some((i + 1, i + 2))
    } else {
        None
    }
}

/// Starting at `first_pair(n)` and stepping with `pair_after`, a collision
/// pass over `n` particles walks exactly the pairs of `pairs_led_by(n, n)`,
/// in their order, and then stops.
pub proof fn lemma_pair_walk(n: nat)
    ensures
        pairs_led_by(n, n as int).len() == 0 ==> first_pair(n as int) is None,
        pairs_led_by(n, n as int).len() > 0 ==> {
            let s = pairs_led_by(n, n as int);
            &&& first_pair(n as int) == Some(s[0])
            &&& pair_after(n as int, s.last().0, s.last().1) is None
        },
        forall|k: int|
            0 <= k < pairs_led_by(n, n as int).len() - 1 ==> pair_after(
                n as int,
                #[trigger] pairs_led_by(n, n as int)[k].0,
                pairs_led_by(n, n as int)[k].1,
            ) == Some(pairs_led_by(n, n as int)[k + 1]),
{
    lemma_pair_walk_prefix(n, n as int);
}

proof fn lemma_pair_walk_prefix(m: nat, n: int)
    requires
        m <= n,
    ensures
        pairs_led_by(m, n).len() > 0 <==> (m >= 1 && n >= 2),
        pairs_led_by(m, n).len() > 0 ==> pairs_led_by(m, n)[0] == (0int, 1int),
        pairs_led_by(m, n).len() > 0 ==> pairs_led_by(m, n).last() == (
            if m - 1 < n - 2 {
                m - 1
            } else {
                n - 2
            },
            n - 1,
        ),
        forall|k: int|
            0 <= k < pairs_led_by(m, n).len() - 1 ==> pair_after(
                n,
                #[trigger] pairs_led_by(m, n)[k].0,
                pairs_led_by(m, n)[k].1,
            ) == Some(pairs_led_by(m, n)[k + 1]),
    decreases m,
{
    if m > 0 {
        let prev = pairs_led_by((m - 1) as nat, n);
        let row = pair_row(m - 1, n);
        let s = pairs_led_by(m, n);
        lemma_pair_walk_prefix((m - 1) as nat, n);
        assert(s == prev + row);
        if row.len() == 0 {
            assert(s =~= prev);
        } else {
            assert(s.last() == row.last());
            if prev.len() > 0 {
                assert(s[0] == prev[0]);
            } else {
                assert(s[0] == row[0]);
            }
        }
        assert forall|k: int| 0 <= k < s.len() - 1 implies pair_after(
            n,
            #[trigger] s[k].0,
            s[k].1,
        ) == Some(s[k + 1]) by {
            if k < prev.len() - 1 {
                assert(s[k] == prev[k] && s[k + 1] == prev[k + 1]);
            } else if k == prev.len() - 1 {
                assert(s[k] == prev.last());
                assert(s[k + 1] == row[0]);
            } else {
                assert(s[k] == row[k - prev.len()]);
                assert(s[k + 1] == row[k + 1 - prev.len()]);
            }
        }
    }
}

/// A collision pass over `n` particles visits every unordered pair of them
/// exactly once, as `(i, j)` with `i < j`, in increasing order of `i` and then
/// of `j`.
pub proof fn lemma_collision_pairs_each_once(n: nat)
    ensures
        forall|k: int|
            0 <= k < pairs_led_by(n, n as int).len() ==> 0 <= #[trigger] pairs_led_by(
                n,
                n as int,
            )[k].0 < pairs_led_by(n, n as int)[k].1 < n,
        forall|i: int, j: int|
            0 <= i < j < n ==> #[trigger] pairs_led_by(n, n as int).contains((i, j)),
        forall|k1: int, k2: int|
            0 <= k1 < k2 < pairs_led_by(n, n as int).len() ==> pair_precedes(
                #[trigger] pairs_led_by(n, n as int)[k1],
                #[trigger] pairs_led_by(n, n as int)[k2],
            ),
{
    lemma_pairs_led_by(n, n as int);
}

proof fn lemma_pairs_led_by(m: nat, n: int)
    requires
        m <= n,
    ensures
        forall|k: int|
            0 <= k < pairs_led_by(m, n).len() ==> 0 <= #[trigger] pairs_led_by(m, n)[k].0 < m
                && pairs_led_by(m, n)[k].0 < pairs_led_by(m, n)[k].1 < n,
        forall|i: int, j: int| 0 <= i < m && i < j < n ==> #[trigger] pairs_led_by(m, n).contains((i, j)),
        forall|k1: int, k2: int|
            0 <= k1 < k2 < pairs_led_by(m, n).len() ==> pair_precedes(
                #[trigger] pairs_led_by(m, n)[k1],
                #[trigger] pairs_led_by(m, n)[k2],
            ),
    decreases m,
{
    if m > 0 {
        let prev = pairs_led_by((m - 1) as nat, n);
        let row = pair_row(m - 1, n);
        let s = pairs_led_by(m, n);
        lemma_pairs_led_by((m - 1) as nat, n);
        assert(s == prev + row);
        assert forall|k: int| 0 <= k < s.len() implies 0 <= #[trigger] s[k].0 < m && s[k].0
            < s[k].1 < n by {
            if k >= prev.len() {
                assert(s[k] == row[k - prev.len()]);
            }
        }
        assert forall|i: int, j: int| 0 <= i < m && i < j < n implies #[trigger] s.contains(
            (i, j),
        ) by {
            if i < m - 1 {
                assert(prev.contains((i, j)));
                let w = choose|w: int| 0 <= w < prev.len() && prev[w] == (i, j);
                assert(s[w] == (i, j));
            } else {
                let w = prev.len() + (j - i - 1);
                assert(s[w] == row[j - i - 1]);
            }
        }
        assert forall|k1: int, k2: int| 0 <= k1 < k2 < s.len() implies pair_precedes(
            #[trigger] s[k1],
            #[trigger] s[k2],
        ) by {
            if k2 < prev.len() {
                assert(s[k1] == prev[k1] && s[k2] == prev[k2]);
            } else if k1 < prev.len() {
                assert(s[k1] == prev[k1]);
                assert(s[k2] == row[k2 - prev.len()]);
            } else {
                assert(s[k1] == row[k1 - prev.len()]);
                assert(s[k2] == row[k2 - prev.len()]);
            }
        }
    }
}

/// One phase of a simulation step.
#[derive(Clone, Copy, Debug, PartialEq, Eq, Structural)]
pub enum StepTask {
    /// Advance every free particle by gravity and its velocity.
    Integrate,
    /// Solve spring number `spring` of body number `body`.
    Spring { body: usize, spring: usize },
    /// Solve the shape constraint of body number `body`.
    Shape { body: usize },
    /// Resolve the overlaps of every particle pair, once.
    Collisions,
    /// Clamp every particle into the bounds, where bounds are set.
    Boundary,
    /// Derive every particle's velocity from the distance it moved.
    UpdateVelocities,
}

/// What a sweep needs to know of one body: how many springs it holds, and
/// whether it has a shape constraint.
#[derive(Clone, Copy, Debug, PartialEq, Eq, Structural)]
pub struct BodyOutline {
    pub springs: usize,
    pub has_shape: bool,
}

/// The solves of body number `b`: each spring in list order, then the shape
/// constraint if the body has one.
pub open spec fn body_tasks(b: int, body: BodyOutline) -> Seq<StepTask> {
    Seq::new(body.springs as nat, |k: int| StepTask::Spring { body: b as usize, spring: k as usize })
        + if body.has_shape {
        seq![StepTask::Shape { body: b as usize }]
    } else {
        seq![]
    }
}

/// The solves of bodies `0..n`, in insertion order.
pub open spec fn bodies_tasks(bodies: Seq<BodyOutline>, n: nat) -> Seq<StepTask>
    decreases n,
{
    if n == 0 {
        seq![]
    } else {
        bodies_tasks(bodies, (n - 1) as nat) + body_tasks(n - 1, bodies[n - 1])
    }
}

/// One full sweep: every body's solves, then one collision pass, then the
/// boundary clamp.
pub open spec fn sweep_tasks(bodies: Seq<BodyOutline>) -> Seq<StepTask> {
    bodies_tasks(bodies, bodies.len()) + seq![StepTask::Collisions, StepTask::Boundary]
}

/// The order of one relaxation sweep over `bodies`, given in insertion order.
/// A step repeats this sweep once per solver iteration.
pub fn relaxation_sweep(bodies: &Vec<BodyOutline>) -> (r: Vec<StepTask>)
    ensures
        r@ == sweep_tasks(bodies@),
{
    let mut r: Vec<StepTask> = Vec::new();
    let mut b: usize = 0;
    while b < bodies.len()
        invariant
            b <= bodies@.len(),
            r@ == bodies_tasks(bodies@, b as nat),
        decreases bodies@.len() - b,
    {
        let body = bodies[b];
        let ghost done = r@;
        let mut k: usize = 0;
        while k < body.springs
            invariant
                k <= body.springs,
                r@ == done + Seq::new(
                    k as nat,
                    |m: int| StepTask::Spring { body: b, spring: m as usize },
                ),
            decreases body.springs - k,
        {
            r.push(StepTask::Spring { body: b, spring: k });
            proof {
                assert(r@ =~= done + Seq::new(
                    (k + 1) as nat,
                    |m: int| StepTask::Spring { body: b, spring: m as usize },
                ));
            }
            k = k + 1;
        }
        if body.has_shape {
            r.push(StepTask::Shape { body: b });
        }
        proof {
            assert(r@ =~= done + body_tasks(b as int, bodies@[b as int]));
        }
        b = b + 1;
    }
    r.push(StepTask::Collisions);
    r.push(StepTask::Boundary);
    proof {
        assert(r@ =~= sweep_tasks(bodies@));
    }
    r
}

/// `s` repeated `n` times.
pub open spec fn repeated<A>(s: Seq<A>, n: nat) -> Seq<A>
    decreases n,
{
    if n == 0 {
        seq![]
    } else {
        repeated(s, (n - 1) as nat) + s
    }
}

/// A whole step: integration, the sweep `iterations` times, then the
/// velocity update.
pub open spec fn step_tasks(bodies: Seq<BodyOutline>, iterations: nat) -> Seq<StepTask> {
    seq![StepTask::Integrate] + repeated(sweep_tasks(bodies), iterations) + seq![
        StepTask::UpdateVelocities,
    ]
}

/// The order of one simulation step over `bodies`, given in insertion order,
/// with `iterations` relaxation sweeps.
pub fn step_plan(bodies: &Vec<BodyOutline>, iterations: usize) -> (r: Vec<StepTask>)
    ensures
        r@ == step_tasks(bodies@, iterations as nat),
{
    let sweep = relaxation_sweep(bodies);
    let mut r: Vec<StepTask> = Vec::new();
    r.push(StepTask::Integrate);
    let mut n: usize = 0;
    while n < iterations
        invariant
            n <= iterations,
            sweep@ == sweep_tasks(bodies@),
            r@ == seq![StepTask::Integrate] + repeated(sweep@, n as nat),
        decreases iterations - n,
    {
        let ghost done = r@;
        let mut t: usize = 0;
        while t < sweep.len()
            invariant
                t <= sweep@.len(),
                r@ == done + sweep@.take(t as int),
            decreases sweep@.len() - t,
        {
            r.push(sweep[t]);
            proof {
                assert(r@ =~= done + sweep@.take(t + 1));
            }
            t = t + 1;
        }
        proof {
            assert(sweep@.take(sweep@.len() as int) =~= sweep@);
            assert(r@ =~= seq![StepTask::Integrate] + repeated(sweep@, (n + 1) as nat));
        }
        n = n + 1;
    }
    r.push(StepTask::UpdateVelocities);
    proof {
        assert(r@ =~= step_tasks(bodies@, iterations as nat));
    }
    r
}

} // verus!
