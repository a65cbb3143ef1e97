use vstd::prelude::*;

verus! {

/// The hue of seat `i` of `n`: the colour wheel split evenly by seat.
pub open spec fn spec_hue(i: int, n: int) -> int {
    (i * 360) / n
}

/// The hue of seat `i` of `n` seats.
pub fn hue_for_seat(i: usize, n: usize) -> (r: u16)
    requires
        i < n,
    ensures
        r as int == spec_hue(i as int, n as int),
{
    proof {
        assert((i as int * 360) / (n as int) < 360) by (nonlinear_arith)
            requires
                0 <= i < n,
        {
            assert(i as int * 360 < n as int * 360);
        }
        assert((i as int * 360) / (n as int) >= 0) by (nonlinear_arith)
            requires
                0 <= i < n,
        ;
    }
    let wide: u128 = (i as u128 * 360) / (n as u128);
    wide as u16
}

/// `ms` milliseconds after `now`, or the largest instant there is.
pub open spec fn deadline_after(now: u64, ms: u64) -> u64 {
    if now as int + ms as int > u64::MAX as int {
        u64::MAX
    } else {
        (now + ms) as u64
    }
}

/// The instant `ms` milliseconds after `now`, saturating.
pub fn later(now: u64, ms: u64) -> (r: u64)
    ensures
        r == deadline_after(now, ms),
{
    now.saturating_add(ms)
}

/// How many milliseconds are left until `deadline`, none once it has passed.
pub open spec fn ms_left(deadline: u64, now: u64) -> u64 {
    if deadline >= now {
        (deadline - now) as u64
    } else {
        0
    }
}

/// The milliseconds left until `deadline`, zero once it has passed.
pub fn time_left(deadline: u64, now: u64) -> (r: u64)
    ensures
        r == ms_left(deadline, now),
{
    deadline.saturating_sub(now)
}

/// The indices `a`, `a + 1`, ..., up to but not including `b`.
pub open spec fn remaining(a: int, b: int) -> Seq<usize> {
    Seq::new((b - a) as nat, |k: int| (a + k) as usize)
}

/// A reordering of a sequence without duplicates has none either.
pub proof fn lemma_permutation_no_duplicates(a: Seq<i64>, b: Seq<i64>)
    requires
        a.to_multiset() == b.to_multiset(),
        a.no_duplicates(),
    ensures
        b.no_duplicates(),
{
    a.lemma_multiset_has_no_duplicates();
    assert forall|x: i64| b.to_multiset().contains(x) implies b.to_multiset().count(x) == 1 by {
        assert(a.to_multiset().contains(x));
    }
    b.lemma_multiset_has_no_duplicates_conv();
}

/// Appending a new element keeps a sequence free of duplicates.
pub proof fn lemma_push_distinct(s: Seq<i64>, x: i64)
    requires
        s.no_duplicates(),
        !s.contains(x),
    ensures
        s.push(x).no_duplicates(),
{
    let t = s.push(x);
    assert forall|i: int, j: int| 0 <= i < t.len() && 0 <= j < t.len() && i != j implies t[i] != t[j] by {
        if i == s.len() {
            assert(s[j] == t[j]);
        } else if j == s.len() {
            assert(s[i] == t[i]);
        }
    }
}

/// Removing an element keeps a sequence free of duplicates.
pub proof fn lemma_remove_distinct(s: Seq<i64>, k: int)
    requires
        s.no_duplicates(),
        0 <= k < s.len(),
    ensures
        s.remove(k).no_duplicates(),
{
    let t = s.remove(k);
    assert forall|i: int, j: int| 0 <= i < t.len() && 0 <= j < t.len() && i != j implies t[i] != t[j] by {
        let a = if i < k { i } else { i + 1 };
        let b = if j < k { j } else { j + 1 };
        assert(t[i] == s[a]);
        assert(t[j] == s[b]);
    }
}

/// Relies on rand's `SliceRandom::shuffle` with the thread-local generator,
/// which only reorders the elements in place.
#[verifier::external_body]
pub(crate) fn shuffle_ids(v: &mut Vec<i64>)
    ensures
        final(v)@.to_multiset() == old(v)@.to_multiset(),
{
    rand::seq::SliceRandom::shuffle(v.as_mut_slice(), &mut rand::thread_rng())
}

} // verus!
