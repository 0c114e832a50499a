//! Theory of the synchronous orbit: what it means for a state sequence to
//! repeat, that every bounded network repeats, and that a first return time
//! at a point is the least eventual period of the whole orbit.

use vstd::prelude::*;

use vstd::arithmetic::power2::{lemma_pow2_pos, lemma_pow2_unfold, pow2};

use crate::rbn::{iter_pattern, next_pattern, paddr, pattern_ok, wiring_wf, NodeWiring};

verus! {

/// `p` is an eventual period of the orbit of `v0`: after some warm-up `m`,
/// running `p` further steps returns to the same state.
pub open spec fn is_eventual_period(w: Seq<NodeWiring>, v0: Seq<bool>, p: nat) -> bool {
    p >= 1 && exists|m: nat|
        #![trigger iter_pattern(w, v0, (m + p) as nat)]
        iter_pattern(w, v0, (m + p) as nat) == iter_pattern(w, v0, m)
}

/// `c` is the cycle length of the orbit of `v0`: its least eventual period.
pub open spec fn is_cycle_length(w: Seq<NodeWiring>, v0: Seq<bool>, c: nat) -> bool {
    &&& is_eventual_period(w, v0, c)
    &&& forall|q: nat| is_eventual_period(w, v0, q) ==> c <= q
}

/// `m` is the transient length of the orbit of `v0` for a cycle length `c`:
/// the least number of steps after which running `c` further steps comes back.
pub open spec fn is_transient_length(w: Seq<NodeWiring>, v0: Seq<bool>, c: nat, m: nat) -> bool {
    &&& iter_pattern(w, v0, m + c) == iter_pattern(w, v0, m)
    &&& forall|j: nat|
        j < m ==> #[trigger] iter_pattern(w, v0, (j + c) as nat) != iter_pattern(w, v0, j)
}

/// The orbit repeats within the range a 64-bit step counter can address.
pub open spec fn small_period(w: Seq<NodeWiring>, v0: Seq<bool>) -> bool {
    exists|m: nat, p: nat|
        #![trigger iter_pattern(w, v0, (m + p) as nat), iter_pattern(w, v0, m)]
        {
            &&& 1 <= p
            &&& m + p <= u64::MAX
            &&& iter_pattern(w, v0, (m + p) as nat) == iter_pattern(w, v0, m)
        }
}

/// Every table is large enough for any address two inputs can form, so no
/// step can fail.
pub open spec fn tables_total(w: Seq<NodeWiring>) -> bool {
    forall|i: int| 0 <= i < w.len() ==> (#[trigger] w[i]).table.len() >= 4
}

/// With total tables, every state passes the address check.
pub proof fn lemma_tables_total_pattern_ok(w: Seq<NodeWiring>, v: Seq<bool>)
    requires
        tables_total(w),
    ensures
        pattern_ok(w, v),
{
    assert forall|i: int| 0 <= i < w.len() implies 0 <= #[trigger] paddr(w, v, i)
        < w[i].table.len() by {
        assert(0 <= paddr(w, v, i) < 4);
    }
}

/// Zero steps land at the seed itself.
pub proof fn lemma_iter_zero(w: Seq<NodeWiring>, v0: Seq<bool>)
    ensures
        iter_pattern(w, v0, 0) == v0,
{
    reveal(iter_pattern);
}

/// One more step applies the update rule once more.
pub proof fn lemma_iter_succ(w: Seq<NodeWiring>, v0: Seq<bool>, k: nat)
    ensures
        iter_pattern(w, v0, k + 1) == next_pattern(w, iter_pattern(w, v0, k)),
{
    reveal(iter_pattern);
}

/// Iterated steps keep the pattern width at 64.
pub proof fn lemma_iter_len(w: Seq<NodeWiring>, v0: Seq<bool>, k: nat)
    requires
        v0.len() == 64,
    ensures
        iter_pattern(w, v0, k).len() == 64,
    decreases k,
{
    reveal(iter_pattern);
    if k > 0 {
        lemma_iter_len(w, v0, (k - 1) as nat);
    }
}

/// From one step on, every position beyond the arena is false.
pub proof fn lemma_iter_high_false(w: Seq<NodeWiring>, v0: Seq<bool>, k: nat)
    requires
        k >= 1,
    ensures
        forall|i: int| w.len() <= i < 64 ==> !iter_pattern(w, v0, k)[i],
{
    reveal(iter_pattern);
}

/// The update rule reads only positions holding nodes, so states that agree
/// there step alike.
pub proof fn lemma_next_pattern_prefix(w: Seq<NodeWiring>, v1: Seq<bool>, v2: Seq<bool>)
    requires
        wiring_wf(w),
        forall|j: int| 0 <= j < w.len() ==> v1[j] == v2[j],
    ensures
        next_pattern(w, v1) == next_pattern(w, v2),
        pattern_ok(w, v1) == pattern_ok(w, v2),
{
    assert forall|i: int| 0 <= i < w.len() implies #[trigger] paddr(w, v1, i) == paddr(
        w,
        v2,
        i,
    ) by {
        assert(v1[w[i].in0] == v2[w[i].in0]);
        assert(v1[w[i].in1] == v2[w[i].in1]);
    }
    assert(next_pattern(w, v1) =~= next_pattern(w, v2));
    if pattern_ok(w, v1) {
        assert forall|i: int| 0 <= i < w.len() implies 0 <= #[trigger] paddr(w, v2, i)
            < w[i].table.len() by {
            assert(paddr(w, v1, i) == paddr(w, v2, i));
        }
        assert(pattern_ok(w, v2));
    }
    if pattern_ok(w, v2) {
        assert forall|i: int| 0 <= i < w.len() implies 0 <= #[trigger] paddr(w, v1, i)
            < w[i].table.len() by {
            assert(paddr(w, v1, i) == paddr(w, v2, i));
        }
        assert(pattern_ok(w, v1));
    }
}

/// Splitting an iteration count: `a + b` steps from `v0` land where `b`
/// steps from the `a`-step state land.
pub proof fn lemma_iter_add(w: Seq<NodeWiring>, v0: Seq<bool>, a: nat, b: nat)
    ensures
        iter_pattern(w, v0, a + b) == iter_pattern(w, iter_pattern(w, v0, a), b),
    decreases b,
{
    reveal(iter_pattern);
    if b > 0 {
        lemma_iter_add(w, v0, a, (b - 1) as nat);
    }
}

/// States reached at equal values step to equal values, any number of steps
/// later.
pub proof fn lemma_iter_congruence(w: Seq<NodeWiring>, v0: Seq<bool>, x: nat, y: nat, c: nat)
    requires
        iter_pattern(w, v0, x) == iter_pattern(w, v0, y),
    ensures
        iter_pattern(w, v0, x + c) == iter_pattern(w, v0, y + c),
{
    lemma_iter_add(w, v0, x, c);
    lemma_iter_add(w, v0, y, c);
}

/// A repeat after `q` steps at time `m` repeats at every later time.
pub proof fn lemma_period_propagates(w: Seq<NodeWiring>, v0: Seq<bool>, m: nat, q: nat, k: nat)
    requires
        iter_pattern(w, v0, m + q) == iter_pattern(w, v0, m),
        k >= m,
    ensures
        iter_pattern(w, v0, k + q) == iter_pattern(w, v0, k),
{
    lemma_iter_congruence(w, v0, m + q, m, (k - m) as nat);
}

/// A state that returns to itself after `r` steps returns after any multiple
/// of `r`.
pub proof fn lemma_return_multiple(w: Seq<NodeWiring>, v0: Seq<bool>, t: nat, r: nat, c: nat)
    requires
        iter_pattern(w, v0, t + r) == iter_pattern(w, v0, t),
    ensures
        iter_pattern(w, v0, t + c * r) == iter_pattern(w, v0, t),
    decreases c,
{
    if c == 0 {
        assert(c * r == 0) by (nonlinear_arith)
            requires
                c == 0,
        ;
    } else {
        lemma_return_multiple(w, v0, t, r, (c - 1) as nat);
        lemma_iter_congruence(w, v0, t + (c - 1) as nat * r, t, r);
        assert(c * r == (c - 1) as nat * r + r) by (nonlinear_arith)
            requires
                c >= 1,
        ;
    }
}

/// The first return time of any orbit point bounds every eventual period of
/// the orbit: such a return time is the cycle length.
pub proof fn lemma_return_is_least_period(w: Seq<NodeWiring>, v0: Seq<bool>, t: nat, r: nat)
    requires
        r >= 1,
        iter_pattern(w, v0, t + r) == iter_pattern(w, v0, t),
        forall|q: nat|
            1 <= q < r ==> #[trigger] iter_pattern(w, v0, (t + q) as nat) != iter_pattern(
                w,
                v0,
                t,
            ),
    ensures
        is_cycle_length(w, v0, r),
{
    assert(is_eventual_period(w, v0, r)) by {
        assert(iter_pattern(w, v0, (t + r) as nat) == iter_pattern(w, v0, t));
    }
    assert forall|q: nat| is_eventual_period(w, v0, q) implies r <= q by {
        let m = choose|m: nat|
            #![trigger iter_pattern(w, v0, (m + q) as nat)]
            iter_pattern(w, v0, (m + q) as nat) == iter_pattern(w, v0, m);
        if q < r {
            // the repeat at m propagates to a point that equals iter(t),
            // so q would be a return time at t below r: contradiction
            lemma_return_multiple(w, v0, t, r, m);
            let kk = (t + m * r) as nat;
            assert(m * r >= m) by (nonlinear_arith)
                requires
                    r >= 1,
                    m >= 0,
            ;
            lemma_period_propagates(w, v0, m, q, kk);
            lemma_iter_congruence(w, v0, t, kk, q);
            assert(iter_pattern(w, v0, (t + q) as nat) == iter_pattern(w, v0, t));
        }
    }
}

/// Whenever a predicate on step counts holds somewhere, it has a least
/// witness.
pub proof fn lemma_least_witness(p: spec_fn(nat) -> bool, m: nat)
    requires
        p(m),
    ensures
        exists|k: nat| #[trigger] p(k) && forall|j: nat| j < k ==> !(#[trigger] p(j)),
    decreases m,
{
    if exists|j: nat| j < m && #[trigger] p(j) {
        let j = choose|j: nat| j < m && #[trigger] p(j);
        lemma_least_witness(p, j);
    } else {
        assert(p(m) && forall|j: nat| j < m ==> !(#[trigger] p(j)));
    }
}

/// The number a pattern spells in binary, least significant position first.
pub open spec fn pat_to_nat(s: Seq<bool>) -> nat
    decreases s.len(),
{
    if s.len() == 0 {
        0
    } else {
        ((if s[0] {
            1nat
        } else {
            0nat
        }) + 2 * pat_to_nat(s.drop_first())) as nat
    }
}

/// A pattern whose positions from `m` on are all false spells a number below
/// `2^m`.
pub proof fn lemma_pat_to_nat_below(s: Seq<bool>, m: nat)
    requires
        forall|i: int| m <= i < s.len() ==> !s[i],
    ensures
        pat_to_nat(s) < pow2(m),
    decreases s.len(),
{
    lemma_pow2_pos(m);
    assert(pow2(0) == 1) by {
        vstd::arithmetic::power2::lemma2_to64();
    }
    if s.len() == 0 {
    } else if m == 0 {
        assert(!s[0]);
        assert forall|i: int| 0 <= i < s.drop_first().len() implies !s.drop_first()[i] by {
            assert(s.drop_first()[i] == s[i + 1]);
        }
        lemma_pat_to_nat_below(s.drop_first(), 0);
        assert(pat_to_nat(s.drop_first()) == 0);
    } else {
        assert forall|i: int| m - 1 <= i < s.drop_first().len() implies !s.drop_first()[i] by {
            assert(s.drop_first()[i] == s[i + 1]);
        }
        lemma_pat_to_nat_below(s.drop_first(), (m - 1) as nat);
        lemma_pow2_unfold(m);
    }
}

/// Equal-width patterns spelling the same number are the same pattern.
pub proof fn lemma_pat_to_nat_injective(s1: Seq<bool>, s2: Seq<bool>)
    requires
        s1.len() == s2.len(),
        pat_to_nat(s1) == pat_to_nat(s2),
    ensures
        s1 == s2,
    decreases s1.len(),
{
    if s1.len() == 0 {
        assert(s1 =~= s2);
    } else {
        let b1: int = if s1[0] {
            1
        } else {
            0
        };
        let b2: int = if s2[0] {
            1
        } else {
            0
        };
        assert(b1 + 2 * pat_to_nat(s1.drop_first()) == b2 + 2 * pat_to_nat(s2.drop_first()));
        assert(b1 == b2);
        lemma_pat_to_nat_injective(s1.drop_first(), s2.drop_first());
        assert forall|i: int| 0 <= i < s1.len() implies s1[i] == s2[i] by {
            if i > 0 {
                assert(s1.drop_first()[i - 1] == s2.drop_first()[i - 1]);
            }
        }
        assert(s1 =~= s2);
    }
}

/// Any map from `n + 1` counts into `n` values repeats somewhere.
pub proof fn lemma_pigeonhole(f: spec_fn(nat) -> nat, n: nat)
    requires
        forall|k: nat| k <= n ==> #[trigger] f(k) < n,
    ensures
        exists|i: nat, j: nat| i < j <= n && #[trigger] f(i) == #[trigger] f(j),
    decreases n,
{
    if n == 0 {
        assert(f(0) < 0);
    } else {
        let v = f(n);
        if exists|k: nat| k < n && #[trigger] f(k) == v {
            let k = choose|k: nat| k < n && #[trigger] f(k) == v;
            assert(k < n <= n && f(k) == f(n));
        } else {
            let fp: spec_fn(nat) -> nat = |k: nat|
                if f(k) == (n - 1) as nat {
                    v
                } else {
                    f(k)
                };
            assert forall|k: nat| k <= (n - 1) as nat implies #[trigger] fp(k) < (n - 1) as nat by {
                assert(f(k) < n);
                assert(f(k) != v);
            }
            lemma_pigeonhole(fp, (n - 1) as nat);
            let (i, j): (nat, nat) = choose|i: nat, j: nat|
                i < j <= (n - 1) as nat && #[trigger] fp(i) == #[trigger] fp(j);
            if f(i) == (n - 1) as nat && f(j) == (n - 1) as nat {
                assert(f(i) == f(j));
            } else if f(i) == (n - 1) as nat {
                assert(f(j) == v && j < n);
                assert(false);
            } else if f(j) == (n - 1) as nat {
                assert(f(i) == v && i < n);
                assert(false);
            } else {
                assert(f(i) == f(j));
            }
        }
    }
}

/// A network of at most 63 nodes revisits a state within `2^63 + 1` steps:
/// its orbit repeats well inside the range a 64-bit counter can address.
pub proof fn lemma_bounded_orbit_repeats(w: Seq<NodeWiring>, v0: Seq<bool>)
    requires
        v0.len() == 64,
        w.len() <= 63,
    ensures
        small_period(w, v0),
{
    let nn = pow2(63);
    let f: spec_fn(nat) -> nat = |k: nat| pat_to_nat(iter_pattern(w, v0, (k + 1) as nat));
    assert forall|k: nat| k <= nn implies #[trigger] f(k) < nn by {
        lemma_iter_len(w, v0, (k + 1) as nat);
        lemma_iter_high_false(w, v0, (k + 1) as nat);
        let s = iter_pattern(w, v0, (k + 1) as nat);
        assert forall|i: int| 63 <= i < s.len() implies !s[i] by {
            assert(w.len() <= i < 64);
        }
        lemma_pat_to_nat_below(s, 63);
    }
    lemma_pigeonhole(f, nn);
    let (i, j): (nat, nat) = choose|i: nat, j: nat| i < j <= nn && #[trigger] f(i) == #[trigger] f(j);
    lemma_iter_len(w, v0, (i + 1) as nat);
    lemma_iter_len(w, v0, (j + 1) as nat);
    lemma_pat_to_nat_injective(
        iter_pattern(w, v0, (i + 1) as nat),
        iter_pattern(w, v0, (j + 1) as nat),
    );
    let m = (i + 1) as nat;
    let p = (j - i) as nat;
    assert(pow2(63) + 1 <= u64::MAX) by {
        vstd::arithmetic::power2::lemma2_to64_rest();
    }
    assert(1 <= p && m + p <= u64::MAX && iter_pattern(w, v0, (m + p) as nat) == iter_pattern(
        w,
        v0,
        m,
    ));
}

/// Any eventual period of an orbit that repeats within 64-bit range has a
/// repeat witness within that range too.
pub proof fn lemma_period_witness_bounded(w: Seq<NodeWiring>, v0: Seq<bool>, c: nat)
    requires
        small_period(w, v0),
        is_eventual_period(w, v0, c),
    ensures
        exists|m: nat|
            #![trigger iter_pattern(w, v0, (m + c) as nat)]
            m < u64::MAX && iter_pattern(w, v0, (m + c) as nat) == iter_pattern(w, v0, m),
{
    let (m0, p0): (nat, nat) = choose|m0: nat, p0: nat|
        #![trigger iter_pattern(w, v0, (m0 + p0) as nat), iter_pattern(w, v0, m0)]
        1 <= p0 && m0 + p0 <= u64::MAX && iter_pattern(w, v0, (m0 + p0) as nat) == iter_pattern(
            w,
            v0,
            m0,
        );
    let mc = choose|mc: nat|
        #![trigger iter_pattern(w, v0, (mc + c) as nat)]
        iter_pattern(w, v0, (mc + c) as nat) == iter_pattern(w, v0, mc);
    // jump from m0 along multiples of p0 past mc, where the period c holds
    lemma_return_multiple(w, v0, m0, p0, mc);
    let x = (m0 + mc * p0) as nat;
    assert(mc * p0 >= mc) by (nonlinear_arith)
        requires
            p0 >= 1,
            mc >= 0,
    ;
    lemma_period_propagates(w, v0, mc, c, x);
    lemma_iter_congruence(w, v0, m0, x, c);
    assert(iter_pattern(w, v0, (m0 + c) as nat) == iter_pattern(w, v0, m0));
    assert(m0 < u64::MAX);
}

} // verus!
