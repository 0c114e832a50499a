//! Cycle and transient detection: a Brent-style tortoise-and-hare search over
//! the synchronous orbit, in bounded memory.

use vstd::prelude::*;

use vstd::arithmetic::power2::{
    lemma2_to64, lemma2_to64_rest, lemma_pow2_strictly_increases, lemma_pow2_unfold, pow2,
};

use crate::errors::RbnError;
use crate::node::same_static;
use crate::orbit::{
    is_cycle_length, is_eventual_period, is_transient_length, lemma_iter_succ, lemma_iter_zero,
    lemma_least_witness, lemma_next_pattern_prefix, lemma_period_propagates,
    lemma_period_witness_bounded, lemma_return_is_least_period, lemma_tables_total_pattern_ok,
    small_period, tables_total,
};
use crate::rbn::{iter_pattern, next_pattern, pat64, pattern_ok, wiring_wf, RBN};
use crate::state::RBNState;

verus! {

impl RBN {
    /// Find the cycle length of the orbit seeded by the bits of `init_state`:
    /// the least number of steps after which the state sequence eventually
    /// repeats. Stores the result in `cycle_len`. Fails with `IndexOutOfRange`
    /// when some node's table is too small for an address met along the way,
    /// leaving the cache unchanged.
    #[verifier::rlimit(100)]
    pub fn calculate_cycle_ln(&mut self, init_state: u64) -> (r: Result<u64, RbnError>)
        requires
            old(self).wf(),
            old(self).nodes@.len() <= 64,
            small_period(old(self).wiring(), pat64(init_state)),
        ensures
            final(self).wf(),
            final(self).nodes@.len() == old(self).nodes@.len(),
            final(self).wiring() == old(self).wiring(),
            forall|i: int|
                0 <= i < old(self).nodes@.len() ==> same_static(
                    #[trigger] final(self).nodes@[i],
                    old(self).nodes@[i],
                ),
            final(self).trans_len == old(self).trans_len,
            r matches Ok(c) ==> {
                &&& 1 <= c
                &&& is_cycle_length(old(self).wiring(), pat64(init_state), c as nat)
                &&& final(self).cycle_len == Some(c)
                &&& final(self).states_set()
            },
            r is Err ==> r == Result::<u64, RbnError>::Err(RbnError::IndexOutOfRange)
                && final(self).cycle_len == old(self).cycle_len,
            tables_total(old(self).wiring()) ==> r is Ok,
    {
        let ghost w = old(self).wiring();
        let ghost v0 = pat64(init_state);
        let ghost pair: (nat, nat) = choose|m0: nat, p0: nat|
            #![trigger iter_pattern(w, v0, (m0 + p0) as nat), iter_pattern(w, v0, m0)]
            1 <= p0 && m0 + p0 <= u64::MAX && iter_pattern(w, v0, (m0 + p0) as nat)
                == iter_pattern(w, v0, m0);
        let ghost m0 = pair.0;
        let ghost p0 = pair.1;
        proof {
            lemma2_to64_rest();
            assert(pow2(64) == 0x10000000000000000);
        }
        let n = self.nodes.len();
        let mut tortoise = RBNState::from_u64(init_state);
        proof {
            assert(tortoise.pattern@ =~= v0);
            lemma_iter_zero(w, v0);
        }
        let mut cycle_count: u64 = 1;
        let mut power: u128 = 1;
        let ghost mut t: nat = 0;
        let ghost mut h: nat = 1;
        let ghost mut jp: nat = 0;
        self.set_state(&tortoise);
        proof {
            assert(self.wf());
            assert(self.wiring() == w);
            assert forall|j: int| 0 <= j < w.len() implies self.live_pattern()[j] == v0[j] by {
                assert(self.nodes@[j].s_t == Some(tortoise.pattern@[j]));
            }
            lemma_next_pattern_prefix(w, self.live_pattern(), v0);
        }
        let hare_first = match self.step_and_sync() {
            Ok(v) => v,
            Err(e) => {
                proof {
                    if tables_total(w) {
                        lemma_tables_total_pattern_ok(w, self.live_pattern());
                        assert(self.inputs_ready());
                        assert(false);
                    }
                }
                return Err(RbnError::IndexOutOfRange);
            },
        };
        let mut hare = hare_first;
        proof {
            lemma_iter_succ(w, v0, 0);
            assert(hare.pattern@ == iter_pattern(w, v0, 1));
            lemma2_to64();
        }
        while !(tortoise == hare)
            invariant
                self.wf(),
                self.states_set(),
                self.nodes@.len() == n as int,
                n == old(self).nodes@.len(),
                n <= 64,
                self.wiring() == w,
                wiring_wf(w),
                w.len() == n as int,
                forall|i: int|
                    0 <= i < n as int ==> same_static(
                        #[trigger] self.nodes@[i],
                        old(self).nodes@[i],
                    ),
                self.cycle_len == old(self).cycle_len,
                self.trans_len == old(self).trans_len,
                v0 == pat64(init_state),
                v0.len() == 64,
                1 <= p0,
                m0 + p0 <= u64::MAX,
                iter_pattern(w, v0, (m0 + p0) as nat) == iter_pattern(w, v0, m0),
                pow2(64) == 0x10000000000000000,
                tortoise.pattern@ == iter_pattern(w, v0, t),
                hare.pattern@ == iter_pattern(w, v0, h),
                self.live_pattern() == hare.pattern@,
                h >= 1,
                h == t + cycle_count as nat,
                cycle_count >= 1,
                cycle_count as nat <= pow2(jp),
                power == pow2(jp),
                jp <= 64,
                t == pow2(jp) - 1,
                jp == 64 ==> cycle_count as nat <= p0,
                forall|q: nat|
                    1 <= q < cycle_count as nat ==> #[trigger] iter_pattern(w, v0, (t + q) as nat)
                        != iter_pattern(w, v0, t),
                h + 1 <= pow2(64) + p0,
            decreases pow2(64) + p0 - h,
        {
            proof {
                // the loop condition says the hare has not come back to the
                // tortoise yet
                assert(iter_pattern(w, v0, (t + cycle_count as nat) as nat) != iter_pattern(
                    w,
                    v0,
                    t,
                ));
                if jp == 64 && cycle_count as nat == p0 {
                    lemma_period_propagates(w, v0, m0, p0, t);
                    assert(false);
                }
            }
            if power == cycle_count as u128 {
                proof {
                    if jp == 64 {
                        assert(cycle_count as nat == pow2(64));
                        assert(false);
                    }
                    lemma_pow2_unfold(jp + 1);
                    if jp + 1 < 64 {
                        lemma_pow2_strictly_increases(jp + 1, 64);
                    }
                    t = h;
                    jp = jp + 1;
                }
                tortoise = hare;
                power = power * 2;
                cycle_count = 0;
            }
            proof {
                lemma2_to64_rest();
                if jp < 63 {
                    lemma_pow2_strictly_increases(jp, 63);
                }
                if jp == 64 && cycle_count as nat == p0 {
                    lemma_period_propagates(w, v0, m0, p0, t);
                    assert(false);
                }
            }
            let next = match self.step_and_sync() {
                Ok(v) => v,
                Err(e) => {
                    proof {
                        if tables_total(w) {
                            lemma_tables_total_pattern_ok(w, self.live_pattern());
                            assert(self.inputs_ready());
                            assert(false);
                        }
                    }
                    return Err(RbnError::IndexOutOfRange);
                },
            };
            proof {
                lemma_iter_succ(w, v0, h);
                assert(next.pattern@ == iter_pattern(w, v0, (h + 1) as nat));
            }
            hare = next;
            cycle_count = cycle_count + 1;
            proof {
                h = h + 1;
            }
        }
        proof {
            assert(iter_pattern(w, v0, (t + cycle_count as nat) as nat) == iter_pattern(w, v0, t));
            lemma_return_is_least_period(w, v0, t, cycle_count as nat);
        }
        self.cycle_len = Some(cycle_count);
        Ok(cycle_count)
    }

    /// Find the transient length of the orbit seeded by the bits of
    /// `init_state`: the least number of steps before the cached cycle length
    /// first acts as a period. Requires a cycle length computed beforehand,
    /// else fails with `MissingCycleLength`; stores the result in `trans_len`.
    #[verifier::rlimit(100)]
    pub fn calculate_transient_ln(&mut self, init_state: u64) -> (r: Result<u64, RbnError>)
        requires
            old(self).wf(),
            old(self).nodes@.len() <= 64,
            old(self).cycle_len matches Some(cl) ==> {
                &&& cl >= 1
                &&& is_eventual_period(old(self).wiring(), pat64(init_state), cl as nat)
                &&& small_period(old(self).wiring(), pat64(init_state))
            },
        ensures
            final(self).wf(),
            final(self).nodes@.len() == old(self).nodes@.len(),
            final(self).wiring() == old(self).wiring(),
            forall|i: int|
                0 <= i < old(self).nodes@.len() ==> same_static(
                    #[trigger] final(self).nodes@[i],
                    old(self).nodes@[i],
                ),
            final(self).cycle_len == old(self).cycle_len,
            old(self).cycle_len is None ==> r == Result::<u64, RbnError>::Err(
                RbnError::MissingCycleLength,
            ) && *final(self) == *old(self),
            r matches Ok(mu) ==> (old(self).cycle_len matches Some(cl) && {
                &&& is_transient_length(
                    old(self).wiring(),
                    pat64(init_state),
                    cl as nat,
                    mu as nat,
                )
                &&& final(self).trans_len == Some(mu)
                &&& final(self).states_set()
            }),
            r is Err ==> final(self).trans_len == old(self).trans_len,
            old(self).cycle_len is Some && r is Err ==> r == Result::<u64, RbnError>::Err(
                RbnError::IndexOutOfRange,
            ),
            old(self).cycle_len is Some && tables_total(old(self).wiring()) ==> r is Ok,
    {
        let cl = match self.cycle_len {
            Some(c) => c,
            None => {
                return Err(RbnError::MissingCycleLength);
            },
        };
        let ghost w = old(self).wiring();
        let ghost v0 = pat64(init_state);
        let n = self.nodes.len();
        let mut hare = RBNState::from_u64(init_state);
        let tortoise_first = RBNState::from_u64(init_state);
        let mut tortoise = tortoise_first;
        proof {
            assert(hare.pattern@ =~= v0);
            assert(tortoise.pattern@ =~= v0);
            lemma_iter_zero(w, v0);
        }
        // the least step count from which the cycle length acts as a period,
        // and a bound keeping the counter inside u64 range
        let ghost pred: spec_fn(nat) -> bool = |j: nat|
            iter_pattern(w, v0, (j + cl as nat) as nat) == iter_pattern(w, v0, j);
        proof {
            lemma_period_witness_bounded(w, v0, cl as nat);
        }
        let ghost mb: nat = choose|m: nat|
            #![trigger iter_pattern(w, v0, (m + cl as nat) as nat)]
            m < u64::MAX && iter_pattern(w, v0, (m + cl as nat) as nat) == iter_pattern(w, v0, m);
        proof {
            assert(pred(mb));
            lemma_least_witness(pred, mb);
        }
        let ghost m_min: nat = choose|k: nat|
            #[trigger] pred(k) && forall|j: nat| j < k ==> !(#[trigger] pred(j));
        proof {
            assert(pred(m_min));
            if m_min > mb {
                assert(!pred(mb));
            }
            assert(m_min < u64::MAX);
        }
        // put the hare one full cycle ahead of the seed
        let mut i: u64 = 0;
        while i < cl
            invariant
                self.wf(),
                self.nodes@.len() == n as int,
                n == old(self).nodes@.len(),
                n <= 64,
                self.wiring() == w,
                w == old(self).wiring(),
                old(self).cycle_len == Some(cl),
                forall|ii: int|
                    0 <= ii < n as int ==> same_static(
                        #[trigger] self.nodes@[ii],
                        old(self).nodes@[ii],
                    ),
                self.cycle_len == old(self).cycle_len,
                self.trans_len == old(self).trans_len,
                i <= cl,
                hare.pattern@ == iter_pattern(w, v0, i as nat),
                hare.pattern@.len() == 64,
                i >= 1 ==> self.states_set(),
            decreases cl - i,
        {
            let next = match self.seed_and_step(&hare) {
                Ok(v) => v,
                Err(e) => {
                    proof {
                        if tables_total(w) {
                            lemma_tables_total_pattern_ok(w, hare.pattern@);
                            assert(false);
                        }
                    }
                    return Err(RbnError::IndexOutOfRange);
                },
            };
            proof {
                lemma_iter_succ(w, v0, i as nat);
            }
            hare = next;
            i = i + 1;
        }
        // advance both in lock step until they meet; the count is the
        // transient length
        proof {
            assert forall|j: nat| j < m_min implies #[trigger] iter_pattern(
                w,
                v0,
                (j + cl as nat) as nat,
            ) != iter_pattern(w, v0, j) by {
                assert(!pred(j));
            }
        }
        let mut mu: u64 = 0;
        while !(tortoise == hare)
            invariant
                self.wf(),
                self.nodes@.len() == n as int,
                n == old(self).nodes@.len(),
                n <= 64,
                self.wiring() == w,
                w == old(self).wiring(),
                old(self).cycle_len == Some(cl),
                forall|ii: int|
                    0 <= ii < n as int ==> same_static(
                        #[trigger] self.nodes@[ii],
                        old(self).nodes@[ii],
                    ),
                self.cycle_len == old(self).cycle_len,
                self.trans_len == old(self).trans_len,
                cl >= 1,
                self.states_set(),
                tortoise.pattern@ == iter_pattern(w, v0, mu as nat),
                tortoise.pattern@.len() == 64,
                hare.pattern@ == iter_pattern(w, v0, (mu + cl) as nat),
                hare.pattern@.len() == 64,
                mu as nat <= m_min,
                m_min < u64::MAX,
                iter_pattern(w, v0, (m_min + cl as nat) as nat) == iter_pattern(w, v0, m_min),
                forall|j: nat|
                    j < m_min ==> #[trigger] iter_pattern(w, v0, (j + cl as nat) as nat)
                        != iter_pattern(w, v0, j),
            decreases m_min - mu as nat,
        {
            proof {
                assert(iter_pattern(w, v0, (mu as nat + cl as nat) as nat) != iter_pattern(
                    w,
                    v0,
                    mu as nat,
                ));
                assert(mu as nat != m_min);
            }
            let t_next = match self.seed_and_step(&tortoise) {
                Ok(v) => v,
                Err(e) => {
                    proof {
                        if tables_total(w) {
                            lemma_tables_total_pattern_ok(w, tortoise.pattern@);
                            assert(false);
                        }
                    }
                    return Err(RbnError::IndexOutOfRange);
                },
            };
            let h_next = match self.seed_and_step(&hare) {
                Ok(v) => v,
                Err(e) => {
                    proof {
                        if tables_total(w) {
                            lemma_tables_total_pattern_ok(w, hare.pattern@);
                            assert(false);
                        }
                    }
                    return Err(RbnError::IndexOutOfRange);
                },
            };
            proof {
                lemma_iter_succ(w, v0, mu as nat);
                lemma_iter_succ(w, v0, (mu + cl) as nat);
            }
            tortoise = t_next;
            hare = h_next;
            mu = mu + 1;
        }
        proof {
            assert(iter_pattern(w, v0, (mu as nat + cl as nat) as nat) == iter_pattern(
                w,
                v0,
                mu as nat,
            ));
            assert(pred(mu as nat));
            if (mu as nat) < m_min {
                assert(!pred(mu as nat));
            }
            assert(mu as nat == m_min);
        }
        self.trans_len = Some(mu);
        Ok(mu)
    }
}

} // verus!
