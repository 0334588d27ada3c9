use vstd::prelude::*;

verus! {

/// Whether `points` and `outside` record `outside.len()` steps of an orbit:
/// `points[0]` is `start`, each next point is a result of `step` on the one
/// before, and `outside[i]` is a result of `escaped` on point `i + 1`.
pub open spec fn is_run<Z, S: Fn(Z) -> Z, E: Fn(Z) -> bool>(
    start: Z,
    step: S,
    escaped: E,
    points: Seq<Z>,
    outside: Seq<bool>,
) -> bool {
    &&& points.len() == outside.len() + 1
    &&& points[0] == start
    &&& forall|i: int|
        0 <= i < outside.len() ==> #[trigger] call_ensures(step, (points[i],), points[i + 1])
    &&& forall|i: int|
        0 <= i < outside.len() ==> #[trigger] call_ensures(escaped, (points[i + 1],), outside[i])
}

/// What the escape-time loop returns after the run `outside`: `Some(n)` when
/// step `n` is the first whose point is outside, `None` when none of
/// `limit` steps is.
pub open spec fn run_result(outside: Seq<bool>, limit: nat, r: Option<u32>) -> bool {
    match r {
        Some(n) => n < limit && outside.len() == n + 1 && outside[n as int] && forall|i: int|
            0 <= i < n ==> !#[trigger] outside[i],
        None => outside.len() == limit && forall|i: int| 0 <= i < limit ==> !#[trigger] outside[i],
    }
}

/// Whether `r` is a possible result of the escape-time loop from `start`.
pub open spec fn escapes_as<Z, S: Fn(Z) -> Z, E: Fn(Z) -> bool>(
    start: Z,
    step: S,
    escaped: E,
    limit: nat,
    r: Option<u32>,
) -> bool {
    exists|points: Seq<Z>, outside: Seq<bool>|
        #[trigger] is_run(start, step, escaped, points, outside) && run_result(outside, limit, r)
}

/// Whether `step` and `escaped` each return one value only for each argument.
pub open spec fn orbit_deterministic<Z, S: Fn(Z) -> Z, E: Fn(Z) -> bool>(
    step: S,
    escaped: E,
) -> bool {
    &&& forall|z: Z, a: Z, b: Z| call_ensures(step, (z,), a) && call_ensures(step, (z,), b) ==> a == b
    &&& forall|z: Z, a: bool, b: bool|
        call_ensures(escaped, (z,), a) && call_ensures(escaped, (z,), b) ==> a == b
}

/// Escape-time classification of an orbit: starting from `start`, applies
/// `step` up to `limit` times and returns `Some(i)` for the first step `i`
/// whose point `escaped` finds outside the radius, or `None` if no step's is.
pub fn escape_time_by<Z: Copy, S: Fn(Z) -> Z, E: Fn(Z) -> bool>(
    start: Z,
    step: &S,
    escaped: &E,
    limit: u32,
) -> (r: Option<u32>)
    requires
        forall|z: Z| #[trigger] call_requires(*step, (z,)),
        forall|z: Z| #[trigger] call_requires(*escaped, (z,)),
    ensures
        escapes_as(start, *step, *escaped, limit as nat, r),
{
    let mut z = start;
    let ghost mut points: Seq<Z> = seq![start];
    let ghost mut outside: Seq<bool> = Seq::empty();
    let mut i: u32 = 0;
    while i < limit
        invariant
            forall|z: Z| #[trigger] call_requires(*step, (z,)),
            forall|z: Z| #[trigger] call_requires(*escaped, (z,)),
            i <= limit,
            outside.len() == i,
            is_run(start, *step, *escaped, points, outside),
            points.last() == z,
            forall|j: int| 0 <= j < i ==> !#[trigger] outside[j],
        decreases limit - i,
    {
        let next = step(z);
        let out = escaped(next);
        proof {
            points = points.push(next);
            outside = outside.push(out);
        }
        z = next;
        assert(is_run(start, *step, *escaped, points, outside));
        if out {
            assert(run_result(outside, limit as nat, Some(i)));
            return Some(i);
        }
        i = i + 1;
    }
    assert(is_run(start, *step, *escaped, points, outside));
    assert(run_result(outside, limit as nat, None));
    None
}

proof fn lemma_runs_agree<Z, S: Fn(Z) -> Z, E: Fn(Z) -> bool>(
    start: Z,
    step: S,
    escaped: E,
    p1: Seq<Z>,
    o1: Seq<bool>,
    p2: Seq<Z>,
    o2: Seq<bool>,
    k: int,
)
    requires
        orbit_deterministic(step, escaped),
        is_run(start, step, escaped, p1, o1),
        is_run(start, step, escaped, p2, o2),
        0 <= k < o1.len(),
        k < o2.len(),
    ensures
        p1[k + 1] == p2[k + 1],
        o1[k] == o2[k],
    decreases k,
{
    if k > 0 {
        lemma_runs_agree(start, step, escaped, p1, o1, p2, o2, k - 1);
    }
    assert(call_ensures(step, (p1[k],), p1[k + 1]));
    assert(call_ensures(step, (p2[k],), p2[k + 1]));
    assert(call_ensures(escaped, (p1[k + 1],), o1[k]));
    assert(call_ensures(escaped, (p2[k + 1],), o2[k]));
}

/// The escape step does not depend on the limit: for an orbit with one
/// next point per point, if the loop reports an escape at step `n` under one
/// limit, it reports the same escape at step `n` under any limit above `n`.
pub proof fn lemma_escape_monotonic<Z, S: Fn(Z) -> Z, E: Fn(Z) -> bool>(
    start: Z,
    step: S,
    escaped: E,
    limit: nat,
    n: u32,
    other_limit: nat,
    r: Option<u32>,
)
    requires
        orbit_deterministic(step, escaped),
        escapes_as(start, step, escaped, limit, Some(n)),
        other_limit > n,
        escapes_as(start, step, escaped, other_limit, r),
    ensures
        r == Some(n),
{
    let (p1, o1) = choose|points: Seq<Z>, outside: Seq<bool>|
        #[trigger] is_run(start, step, escaped, points, outside) && run_result(
            outside,
            limit,
            Some(n),
        );
    let (p2, o2) = choose|points: Seq<Z>, outside: Seq<bool>|
        #[trigger] is_run(start, step, escaped, points, outside) && run_result(
            outside,
            other_limit,
            r,
        );
    match r {
        Some(m) => {
            if m < n {
                lemma_runs_agree(start, step, escaped, p1, o1, p2, o2, m as int);
            } else if m > n {
                lemma_runs_agree(start, step, escaped, p1, o1, p2, o2, n as int);
            }
        },
        None => {
            lemma_runs_agree(start, step, escaped, p1, o1, p2, o2, n as int);
        },
    }
}

} // verus!
