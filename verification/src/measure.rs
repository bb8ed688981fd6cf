use vstd::prelude::*;

use crate::sample::{key_le, key_lt, SampleKey};

verus! {

/// Sample `i` lies at or on the starting side of the transition and sample
/// `i + 1` has left it: for a rise, `s[i] <= low < s[i + 1]`; for a fall,
/// `s[i] >= high > s[i + 1]`.
pub open spec fn leaves(s: Seq<SampleKey>, i: int, rising: bool, low: SampleKey, high: SampleKey) -> bool {
    if rising {
        key_le(s[i], low) && key_lt(low, s[i + 1])
    } else {
        key_le(high, s[i]) && key_lt(s[i + 1], high)
    }
}

/// `x` has reached the far threshold: `x >= high` for a rise, `x <= low` for a fall.
pub open spec fn reaches(x: SampleKey, rising: bool, low: SampleKey, high: SampleKey) -> bool {
    if rising {
        key_le(high, x)
    } else {
        key_le(x, low)
    }
}

/// `x` has gone back past the near threshold, which aborts the transition:
/// `x < low` for a rise, `x > high` for a fall.
pub open spec fn falls_back(x: SampleKey, rising: bool, low: SampleKey, high: SampleKey) -> bool {
    if rising {
        key_lt(x, low)
    } else {
        key_lt(high, x)
    }
}

/// The transition that leaves at sample `i` first reaches the far threshold at
/// sample `j`, without falling back before.
pub open spec fn ends_at(
    s: Seq<SampleKey>,
    i: int,
    j: int,
    rising: bool,
    low: SampleKey,
    high: SampleKey,
) -> bool {
    &&& 0 <= i < j < s.len()
    &&& reaches(s[j], rising, low, high)
    &&& forall|k: int|
        i < k < j ==> !reaches(#[trigger] s[k], rising, low, high) && !falls_back(
            s[k],
            rising,
            low,
            high,
        )
}

/// A complete transition starts at sample `i`.
pub open spec fn completes(s: Seq<SampleKey>, i: int, rising: bool, low: SampleKey, high: SampleKey) -> bool {
    &&& 0 <= i
    &&& i + 1 < s.len()
    &&& leaves(s, i, rising, low, high)
    &&& exists|j: int| ends_at(s, i, j, rising, low, high)
}

/// The duration, in samples, of the first complete transition: `Some(d)` when
/// the earliest sample where a complete transition starts is `i` and it ends
/// at `i + d`; `None` when there is none.
pub open spec fn first_transition_spec(
    s: Seq<SampleKey>,
    r: Option<usize>,
    rising: bool,
    low: SampleKey,
    high: SampleKey,
) -> bool {
    match r {
        Some(d) => exists|i: int|
            {
                &&& completes(s, i, rising, low, high)
                &&& ends_at(s, i, i + d, rising, low, high)
                &&& forall|i2: int| 0 <= i2 < i ==> !#[trigger] completes(s, i2, rising, low, high)
            },
        None => forall|i: int| 0 <= i < s.len() ==> !#[trigger] completes(s, i, rising, low, high),
    }
}

fn leaves_at(samples: &[SampleKey], i: usize, rising: bool, low: SampleKey, high: SampleKey) -> (b: bool)
    requires
        i + 1 < samples.len(),
    ensures
        b == leaves(samples@, i as int, rising, low, high),
{
    if rising {
        samples[i].less_or_equal(&low) && low.less_than(&samples[i + 1])
    } else {
        high.less_or_equal(&samples[i]) && samples[i + 1].less_than(&high)
    }
}

/// Follows the transition that leaves at sample `i` to the sample where it
/// reaches the far threshold, if it does before falling back.
fn transition_end(samples: &[SampleKey], i: usize, rising: bool, low: SampleKey, high: SampleKey) -> (r:
    Option<usize>)
    requires
        i + 1 < samples.len(),
    ensures
        match r {
            Some(j) => ends_at(samples@, i as int, j as int, rising, low, high),
            None => forall|j: int| !ends_at(samples@, i as int, j, rising, low, high),
        },
{
    let ghost s = samples@;
    let mut j: usize = i + 1;
    while j < samples.len()
        invariant
            s == samples@,
            i < j <= s.len(),
            forall|k: int|
                i < k < j ==> !reaches(#[trigger] s[k], rising, low, high) && !falls_back(
                    s[k],
                    rising,
                    low,
                    high,
                ),
        decreases s.len() - j,
    {
        let x = samples[j];
        let reached = if rising {
            high.less_or_equal(&x)
        } else {
            x.less_or_equal(&low)
        };
        if reached {
            return Some(j);
        }
        let back = if rising {
            x.less_than(&low)
        } else {
            high.less_than(&x)
        };
        if back {
            assert forall|j2: int| !ends_at(s, i as int, j2, rising, low, high) by {
                if ends_at(s, i as int, j2, rising, low, high) {
                    if j2 > j {
                        assert(!falls_back(s[j as int], rising, low, high));
                    }
                }
            }
            return None;
        }
        j += 1;
    }
    None
}

/// Duration in samples of the first complete rise (`rising`) or fall.
fn first_transition(samples: &[SampleKey], rising: bool, low: SampleKey, high: SampleKey) -> (r: Option<
    usize,
>)
    requires
        samples@.len() >= 1,
    ensures
        first_transition_spec(samples@, r, rising, low, high),
{
    let ghost s = samples@;
    let n: usize = samples.len();
    let mut i: usize = 0;
    while i < n - 1
        invariant
            s == samples@,
            n == s.len(),
            n >= 1,
            i <= n - 1,
            forall|i2: int| 0 <= i2 < i ==> !#[trigger] completes(s, i2, rising, low, high),
        decreases n - i,
    {
        if leaves_at(samples, i, rising, low, high) {
            match transition_end(samples, i, rising, low, high) {
                Some(j) => {
                    assert(completes(s, i as int, rising, low, high));
                    assert(ends_at(s, i as int, i + (j - i) as usize, rising, low, high));
                    return Some(j - i);
                },
                None => {},
            }
        }
        i += 1;
    }
    None
}

/// Estimates the 10%-90% rise time and the 90%-10% fall time of a window,
/// in samples, given its 10% level `low` and 90% level `high`: the first rise
/// is the first sample at or below `low` followed by one above it, measured
/// to the first later sample at or above `high` unless one below `low` comes
/// first; the fall likewise with the roles of the levels swapped. Windows of
/// fewer than 4 samples give no estimate.
pub fn compute_rise_fall(samples: &[SampleKey], low: SampleKey, high: SampleKey) -> (r: (
    Option<usize>,
    Option<usize>,
))
    ensures
        samples@.len() < 4 ==> r == (None::<usize>, None::<usize>),
        samples@.len() >= 4 ==> first_transition_spec(samples@, r.0, true, low, high)
            && first_transition_spec(samples@, r.1, false, low, high),
        samples@.len() >= 4 ==> (r.0 matches Some(d) ==> exists|i: int|
            #[trigger] rise_from_to(samples@, i, i + d, low, high) && forall|i2: int, j2: int|
                i2 < i ==> !#[trigger] rise_from_to(samples@, i2, j2, low, high)),
        samples@.len() >= 4 ==> (r.0 is None ==> forall|i: int, j: int|
            !#[trigger] rise_from_to(samples@, i, j, low, high)),
        samples@.len() >= 4 ==> (r.1 matches Some(d) ==> exists|i: int|
            #[trigger] fall_from_to(samples@, i, i + d, low, high) && forall|i2: int, j2: int|
                i2 < i ==> !#[trigger] fall_from_to(samples@, i2, j2, low, high)),
        samples@.len() >= 4 ==> (r.1 is None ==> forall|i: int, j: int|
            !#[trigger] fall_from_to(samples@, i, j, low, high)),
{
    if samples.len() < 4 {
        return (None, None);
    }
    let rise = first_transition(samples, true, low, high);
    let fall = first_transition(samples, false, low, high);
    proof {
        lemma_rise_meaning(samples@, rise, low, high);
        lemma_fall_meaning(samples@, fall, low, high);
    }
    (rise, fall)
}

/// A complete rise from sample `i` to sample `j`, in terms of the samples:
/// `s[i] <= low < s[i + 1]`, `s[j] >= high`, and every sample strictly
/// between is below `high` and not below `low`.
pub open spec fn rise_from_to(s: Seq<SampleKey>, i: int, j: int, low: SampleKey, high: SampleKey) -> bool {
    &&& 0 <= i < j < s.len()
    &&& key_le(s[i], low)
    &&& key_lt(low, s[i + 1])
    &&& key_le(high, s[j])
    &&& forall|k: int| i < k < j ==> !key_le(high, #[trigger] s[k]) && !key_lt(s[k], low)
}

/// A complete fall from sample `i` to sample `j`, in terms of the samples:
/// `s[i] >= high > s[i + 1]`, `s[j] <= low`, and every sample strictly
/// between is above `low` and not above `high`.
pub open spec fn fall_from_to(s: Seq<SampleKey>, i: int, j: int, low: SampleKey, high: SampleKey) -> bool {
    &&& 0 <= i < j < s.len()
    &&& key_le(high, s[i])
    &&& key_lt(s[i + 1], high)
    &&& key_le(s[j], low)
    &&& forall|k: int| i < k < j ==> !key_le(#[trigger] s[k], low) && !key_lt(high, s[k])
}

/// The rise time reported is that of the earliest complete rise: it starts
/// at a sample at or below `low` followed by one above `low`, takes `d >= 1`
/// samples to reach `high`, and no earlier sample starts a complete rise.
/// No rise is reported only when there is no complete rise at all.
pub proof fn lemma_rise_meaning(s: Seq<SampleKey>, r: Option<usize>, low: SampleKey, high: SampleKey)
    requires
        first_transition_spec(s, r, true, low, high),
    ensures
        r matches Some(d) ==> exists|i: int|
            {
                &&& key_le(#[trigger] s[i], low)
                &&& key_lt(low, s[i + 1])
                &&& d >= 1
                &&& rise_from_to(s, i, i + d, low, high)
                &&& forall|i2: int, j2: int| i2 < i ==> !#[trigger] rise_from_to(s, i2, j2, low, high)
            },
        r is None ==> forall|i: int, j: int| !#[trigger] rise_from_to(s, i, j, low, high),
{
    match r {
        Some(d) => {
            let i = choose|i: int|
                {
                    &&& completes(s, i, true, low, high)
                    &&& ends_at(s, i, i + d, true, low, high)
                    &&& forall|i2: int| 0 <= i2 < i ==> !#[trigger] completes(s, i2, true, low, high)
                };
            assert forall|i2: int, j2: int| i2 < i implies !#[trigger] rise_from_to(s, i2, j2, low, high) by {
                if rise_from_to(s, i2, j2, low, high) {
                    assert(ends_at(s, i2, j2, true, low, high));
                    assert(completes(s, i2, true, low, high));
                }
            }
            assert(rise_from_to(s, i, i + d, low, high));
        },
        None => {
            assert forall|i: int, j: int| !#[trigger] rise_from_to(s, i, j, low, high) by {
                if rise_from_to(s, i, j, low, high) {
                    assert(ends_at(s, i, j, true, low, high));
                    assert(completes(s, i, true, low, high));
                }
            }
        },
    }
}

/// The fall time reported is that of the earliest complete fall: it starts
/// at a sample at or above `high` followed by one below `high`, takes `d >= 1`
/// samples to reach `low`, and no earlier sample starts a complete fall.
/// No fall is reported only when there is no complete fall at all.
pub proof fn lemma_fall_meaning(s: Seq<SampleKey>, r: Option<usize>, low: SampleKey, high: SampleKey)
    requires
        first_transition_spec(s, r, false, low, high),
    ensures
        r matches Some(d) ==> exists|i: int|
            {
                &&& key_le(high, #[trigger] s[i])
                &&& key_lt(s[i + 1], high)
                &&& d >= 1
                &&& fall_from_to(s, i, i + d, low, high)
                &&& forall|i2: int, j2: int| i2 < i ==> !#[trigger] fall_from_to(s, i2, j2, low, high)
            },
        r is None ==> forall|i: int, j: int| !#[trigger] fall_from_to(s, i, j, low, high),
{
    match r {
        Some(d) => {
            let i = choose|i: int|
                {
                    &&& completes(s, i, false, low, high)
                    &&& ends_at(s, i, i + d, false, low, high)
                    &&& forall|i2: int| 0 <= i2 < i ==> !#[trigger] completes(s, i2, false, low, high)
                };
            assert forall|i2: int, j2: int| i2 < i implies !#[trigger] fall_from_to(s, i2, j2, low, high) by {
                if fall_from_to(s, i2, j2, low, high) {
                    assert(ends_at(s, i2, j2, false, low, high));
                    assert(completes(s, i2, false, low, high));
                }
            }
            assert(fall_from_to(s, i, i + d, low, high));
        },
        None => {
            assert forall|i: int, j: int| !#[trigger] fall_from_to(s, i, j, low, high) by {
                if fall_from_to(s, i, j, low, high) {
                    assert(ends_at(s, i, j, false, low, high));
                    assert(completes(s, i, false, low, high));
                }
            }
        },
    }
}

/// `a` beats `b` for a running minimum (`lowest`) or maximum: strictly below,
/// or strictly above.
pub open spec fn beats(a: SampleKey, b: SampleKey, lowest: bool) -> bool {
    if lowest {
        key_lt(a, b)
    } else {
        key_lt(b, a)
    }
}

/// `Some(i)`: sample `i` is the first of the most extreme samples that beat
/// the starting bound `bound`; `None`: no sample beats it.
pub open spec fn is_extreme_index(s: Seq<SampleKey>, r: Option<usize>, bound: SampleKey, lowest: bool) -> bool {
    match r {
        Some(i) => {
            &&& i < s.len()
            &&& beats(s[i as int], bound, lowest)
            &&& forall|j: int| 0 <= j < s.len() ==> !beats(#[trigger] s[j], s[i as int], lowest)
            &&& forall|j: int|
                0 <= j < i ==> !(beats(#[trigger] s[j], bound, lowest) && !beats(s[i as int], s[j], lowest))
        },
        None => forall|j: int| 0 <= j < s.len() ==> !beats(#[trigger] s[j], bound, lowest),
    }
}

/// The running minimum, in terms of the samples: it ends on a sample below
/// the bound that no sample is below, the first of the samples with that
/// value; it keeps the bound only when no sample is below it. (The running
/// maximum likewise, with "above".)
pub proof fn lemma_extreme_meaning(s: Seq<SampleKey>, r: Option<usize>, bound: SampleKey, lowest: bool)
    requires
        is_extreme_index(s, r, bound, lowest),
    ensures
        lowest ==> match r {
            Some(i) => {
                &&& i < s.len()
                &&& key_lt(s[i as int], bound)
                &&& forall|j: int| 0 <= j < s.len() ==> !key_lt(#[trigger] s[j], s[i as int])
                &&& forall|j: int| 0 <= j < i ==> !(key_lt(#[trigger] s[j], bound) && key_le(s[j], s[i as int]))
            },
            None => forall|j: int| 0 <= j < s.len() ==> !key_lt(#[trigger] s[j], bound),
        },
        !lowest ==> match r {
            Some(i) => {
                &&& i < s.len()
                &&& key_lt(bound, s[i as int])
                &&& forall|j: int| 0 <= j < s.len() ==> !key_lt(s[i as int], #[trigger] s[j])
                &&& forall|j: int| 0 <= j < i ==> !(key_lt(bound, #[trigger] s[j]) && key_le(s[i as int], s[j]))
            },
            None => forall|j: int| 0 <= j < s.len() ==> !key_lt(bound, #[trigger] s[j]),
        },
{
    match r {
        Some(i) => {
            if lowest {
                assert forall|j: int| 0 <= j < i implies !(key_lt(#[trigger] s[j], bound) && key_le(s[j], s[i as int])) by {
                    assert(!(beats(s[j], bound, lowest) && !beats(s[i as int], s[j], lowest)));
                    if key_lt(s[j], bound) && key_le(s[j], s[i as int]) {
                        assert(!key_lt(s[i as int], s[j]));
                    }
                }
            } else {
                assert forall|j: int| 0 <= j < i implies !(key_lt(bound, #[trigger] s[j]) && key_le(s[i as int], s[j])) by {
                    assert(!(beats(s[j], bound, lowest) && !beats(s[i as int], s[j], lowest)));
                    if key_lt(bound, s[j]) && key_le(s[i as int], s[j]) {
                        assert(!key_lt(s[j], s[i as int]));
                    }
                }
            }
        },
        None => {},
    }
}

/// Where a running minimum (`lowest`) or maximum over `samples` ends up: it
/// starts at `bound`, and each sample that beats the current extreme replaces
/// it. Returns the index of the sample it ends on, or `None` when it keeps the bound.
pub fn running_extreme(samples: &[SampleKey], bound: SampleKey, lowest: bool) -> (r: Option<usize>)
    ensures
        is_extreme_index(samples@, r, bound, lowest),
        lowest && r is Some ==> key_lt(samples@[r->0 as int], bound) && forall|j: int|
            0 <= j < samples@.len() ==> !key_lt(#[trigger] samples@[j], samples@[r->0 as int]),
        !lowest && r is Some ==> key_lt(bound, samples@[r->0 as int]) && forall|j: int|
            0 <= j < samples@.len() ==> !key_lt(samples@[r->0 as int], #[trigger] samples@[j]),
        lowest && r is None ==> forall|j: int|
            0 <= j < samples@.len() ==> !key_lt(#[trigger] samples@[j], bound),
        !lowest && r is None ==> forall|j: int|
            0 <= j < samples@.len() ==> !key_lt(bound, #[trigger] samples@[j]),
{
    let ghost s = samples@;
    let mut best: Option<usize> = None;
    let mut cur: SampleKey = bound;
    let mut i: usize = 0;
    while i < samples.len()
        invariant
            s == samples@,
            i <= s.len(),
            is_extreme_index(s.subrange(0, i as int), best, bound, lowest),
            cur == (match best {
                Some(b) => s[b as int],
                None => bound,
            }),
        decreases s.len() - i,
    {
        let x = samples[i];
        let better = if lowest {
            x.less_than(&cur)
        } else {
            cur.less_than(&x)
        };
        let ghost old_best = best;
        if better {
            best = Some(i);
            cur = x;
        }
        proof {
            let p = s.subrange(0, i as int);
            let q = s.subrange(0, i + 1);
            assert forall|j: int| 0 <= j < i implies #[trigger] q[j] == p[j] by {}
            assert(q[i as int] == x);
        }
        i += 1;
    }
    proof {
        assert(s.subrange(0, s.len() as int) =~= s);
        lemma_extreme_meaning(s, best, bound, lowest);
    }
    best
}

/// The signal, measured from its mean, goes from below zero to zero or above
/// between samples `i - 1` and `i`.
pub open spec fn rises_through_zero(deviations: Seq<SampleKey>, i: int) -> bool {
    key_lt(deviations[i - 1], SampleKey::Ordered(0)) && key_le(SampleKey::Ordered(0), deviations[i])
}

/// The indices `i` in `1..n` where the signal rises through zero, in increasing order.
pub open spec fn zero_crossings_upto(deviations: Seq<SampleKey>, n: int) -> Seq<usize>
    decreases n,
{
    if n <= 1 {
        Seq::<usize>::empty()
    } else if rises_through_zero(deviations, n - 1) {
        zero_crossings_upto(deviations, n - 1).push((n - 1) as usize)
    } else {
        zero_crossings_upto(deviations, n - 1)
    }
}

/// The crossing list, in terms of the samples: each listed index `i` has
/// `deviations[i - 1] < 0 <= deviations[i]`, the list is strictly increasing,
/// and every such `i` in `1..n` is listed.
pub proof fn lemma_zero_crossings_meaning(d: Seq<SampleKey>, n: int)
    requires
        0 <= n <= d.len(),
        n <= usize::MAX,
    ensures
        ({
            let r = zero_crossings_upto(d, n);
            &&& forall|k: int|
                0 <= k < r.len() ==> {
                    &&& 1 <= #[trigger] r[k] < n
                    &&& key_lt(d[r[k] - 1], SampleKey::Ordered(0))
                    &&& key_le(SampleKey::Ordered(0), d[r[k] as int])
                }
            &&& forall|k1: int, k2: int| 0 <= k1 < k2 < r.len() ==> #[trigger] r[k1] < #[trigger] r[k2]
            &&& forall|i: int|
                1 <= i < n && key_lt(d[i - 1], SampleKey::Ordered(0)) && key_le(
                    SampleKey::Ordered(0),
                    #[trigger] d[i],
                ) ==> r.contains(i as usize)
        }),
    decreases n,
{
    if n > 1 {
        lemma_zero_crossings_meaning(d, n - 1);
        let p = zero_crossings_upto(d, n - 1);
        let r = zero_crossings_upto(d, n);
        if rises_through_zero(d, n - 1) {
            assert(r == p.push((n - 1) as usize));
        } else {
            assert(r == p);
        }
        assert forall|k: int|
            0 <= k < r.len() implies {
                &&& 1 <= #[trigger] r[k] < n
                &&& key_lt(d[r[k] - 1], SampleKey::Ordered(0))
                &&& key_le(SampleKey::Ordered(0), d[r[k] as int])
            } by {
            if k < p.len() {
                assert(r[k] == p[k]);
            }
        }
        assert forall|k1: int, k2: int| 0 <= k1 < k2 < r.len() implies #[trigger] r[k1] < #[trigger] r[k2] by {
            if k2 < p.len() {
                assert(r[k1] == p[k1] && r[k2] == p[k2]);
            } else {
                assert(r[k1] == p[k1]);
                assert(p[k1] < n - 1);
            }
        }
        assert forall|i: int|
            1 <= i < n && key_lt(d[i - 1], SampleKey::Ordered(0)) && key_le(
                SampleKey::Ordered(0),
                #[trigger] d[i],
            ) implies r.contains(i as usize) by {
            if i < n - 1 {
                assert(p.contains(i as usize));
                let k = choose|k: int| 0 <= k < p.len() && p[k] == i as usize;
                assert(r[k] == p[k]);
            } else {
                assert(r[r.len() - 1] == i as usize);
            }
        }
    }
}

/// The indices where a signal, given as its deviations from its mean,
/// rises through zero (the mean): each `i` with `deviations[i - 1] < 0 <= deviations[i]`,
/// in increasing order. Used for the zero-crossing frequency estimate.
pub fn rising_zero_crossings(deviations: &[SampleKey]) -> (r: Vec<usize>)
    ensures
        r@ == zero_crossings_upto(deviations@, deviations@.len() as int),
        forall|k: int|
            0 <= k < r@.len() ==> {
                &&& 1 <= #[trigger] r@[k] < deviations@.len()
                &&& key_lt(deviations@[r@[k] - 1], SampleKey::Ordered(0))
                &&& key_le(SampleKey::Ordered(0), deviations@[r@[k] as int])
            },
        forall|k1: int, k2: int| 0 <= k1 < k2 < r@.len() ==> #[trigger] r@[k1] < #[trigger] r@[k2],
        forall|i: int|
            1 <= i < deviations@.len() && key_lt(deviations@[i - 1], SampleKey::Ordered(0))
                && key_le(SampleKey::Ordered(0), #[trigger] deviations@[i]) ==> r@.contains(
                i as usize,
            ),
{
    let zero = SampleKey::Ordered(0);
    let mut r: Vec<usize> = Vec::new();
    let n: usize = deviations.len();
    let mut i: usize = 1;
    while i < n
        invariant
            n == deviations@.len(),
            zero == SampleKey::Ordered(0),
            1 <= i,
            i <= n || i == 1,
            r@ == zero_crossings_upto(deviations@, i as int),
        decreases n - i,
    {
        if deviations[i - 1].less_than(&zero) && zero.less_or_equal(&deviations[i]) {
            r.push(i);
        }
        i += 1;
    }
    proof {
        if n == 0 {
            assert(zero_crossings_upto(deviations@, 0) =~= zero_crossings_upto(deviations@, 1));
        }
        lemma_zero_crossings_meaning(deviations@, n as int);
    }
    r
}

} // verus!
