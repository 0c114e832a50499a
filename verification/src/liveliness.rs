//! Per-node liveliness: replaying the transient and cycle phases while
//! folding each observed state onto signed per-node tallies.

use vstd::prelude::*;

use crate::errors::RbnError;
use crate::node::{acc_or_zero, observe, Node};
use crate::orbit::{
    lemma_iter_succ, lemma_iter_zero, lemma_next_pattern_prefix, lemma_tables_total_pattern_ok,
    tables_total,
};
use crate::rbn::{iter_pattern, next_pattern, pat64, pattern_ok, NodeWiring, RBN};
use crate::state::RBNState;

verus! {

/// The tally node `i` holds after folding, onto a fresh accumulator, one
/// observation for each state from step `start` to step `start + count - 1`
/// of the orbit of `v0`.
pub open spec fn liv_sum(
    w: Seq<NodeWiring>,
    v0: Seq<bool>,
    start: nat,
    count: nat,
    i: int,
) -> int
    decreases count,
{
    if count == 0 {
        0
    } else {
        observe(
            liv_sum(w, v0, start, (count - 1) as nat, i),
            iter_pattern(w, v0, (start + count - 1) as nat)[i],
        )
    }
}

/// The number of observations between steps `start` and `start + count - 1`
/// in which node `i` was active.
pub open spec fn count_true(
    w: Seq<NodeWiring>,
    v0: Seq<bool>,
    start: nat,
    count: nat,
    i: int,
) -> int
    decreases count,
{
    if count == 0 {
        0
    } else {
        count_true(w, v0, start, (count - 1) as nat, i) + (if iter_pattern(
            w,
            v0,
            (start + count - 1) as nat,
        )[i] {
            1int
        } else {
            0int
        })
    }
}

/// A tally always stays inside the accumulator's range.
pub proof fn lemma_liv_sum_in_range(
    w: Seq<NodeWiring>,
    v0: Seq<bool>,
    start: nat,
    count: nat,
    i: int,
)
    ensures
        i32::MIN as int <= liv_sum(w, v0, start, count, i) <= i32::MAX as int,
    decreases count,
{
    if count > 0 {
        lemma_liv_sum_in_range(w, v0, start, (count - 1) as nat, i);
    }
}

/// A tally never outgrows the number of observations folded into it, and as
/// long as that number fits the accumulator, the tally is exactly the count
/// of active observations minus the count of inactive ones.
pub proof fn lemma_liv_sum_bounds(w: Seq<NodeWiring>, v0: Seq<bool>, start: nat, count: nat, i: int)
    ensures
        -(count as int) <= liv_sum(w, v0, start, count, i) <= count as int,
        count <= i32::MAX as int ==> liv_sum(w, v0, start, count, i) == 2 * count_true(
            w,
            v0,
            start,
            count,
            i,
        ) - count,
        0 <= count_true(w, v0, start, count, i) <= count,
    decreases count,
{
    if count > 0 {
        lemma_liv_sum_bounds(w, v0, start, (count - 1) as nat, i);
    }
}

impl RBN {
    /// Clear every node's liveliness tallies.
    pub fn reset_node_liveliness(&mut self)
        ensures
            final(self).nodes@.len() == old(self).nodes@.len(),
            forall|i: int|
                0 <= i < old(self).nodes@.len() ==> #[trigger] final(self).nodes@[i] == (Node {
                    trans_liveliness: None,
                    cycle_liveliness: None,
                    ..old(self).nodes@[i]
                }),
            final(self).cycle_len == old(self).cycle_len,
            final(self).trans_len == old(self).trans_len,
            final(self).wiring() == old(self).wiring(),
    {
        let n = self.nodes.len();
        let mut idx: usize = 0;
        while idx < n
            invariant
                n == self.nodes@.len(),
                idx <= n,
                self.nodes@.len() == old(self).nodes@.len(),
                forall|i: int|
                    0 <= i < idx as int ==> #[trigger] self.nodes@[i] == (Node {
                        trans_liveliness: None,
                        cycle_liveliness: None,
                        ..old(self).nodes@[i]
                    }),
                forall|i: int|
                    idx as int <= i < n as int ==> #[trigger] self.nodes@[i]
                        == old(self).nodes@[i],
                self.cycle_len == old(self).cycle_len,
                self.trans_len == old(self).trans_len,
            decreases n - idx,
        {
            self.nodes[idx].reset_liveliness();
            idx = idx + 1;
        }
        proof {
            assert(final(self).wiring() =~= old(self).wiring());
        }
    }

    /// Fold every node's current state onto its transient tally. Fails with
    /// `NoCurrentState` when some node's state is unset.
    pub fn update_node_trans_liveliness(&mut self) -> (r: Result<(), RbnError>)
        ensures
            final(self).nodes@.len() == old(self).nodes@.len(),
            final(self).cycle_len == old(self).cycle_len,
            final(self).trans_len == old(self).trans_len,
            final(self).wiring() == old(self).wiring(),
            old(self).states_set() <==> r == Result::<(), RbnError>::Ok(()),
            r is Err ==> r == Result::<(), RbnError>::Err(RbnError::NoCurrentState),
            r is Ok ==> forall|i: int|
                0 <= i < old(self).nodes@.len() ==> #[trigger] final(self).nodes@[i] == (Node {
                    trans_liveliness: Some(
                        observe(
                            acc_or_zero(old(self).nodes@[i].trans_liveliness),
                            old(self).nodes@[i].s_t->0,
                        ) as i32,
                    ),
                    ..old(self).nodes@[i]
                }),
    {
        let n = self.nodes.len();
        let mut idx: usize = 0;
        while idx < n
            invariant
                n == self.nodes@.len(),
                idx <= n,
                self.nodes@.len() == old(self).nodes@.len(),
                forall|i: int|
                    0 <= i < idx as int ==> (#[trigger] old(self).nodes@[i]).s_t is Some,
                forall|i: int|
                    0 <= i < idx as int ==> {
                        &&& old(self).nodes@[i].s_t is Some
                        &&& (#[trigger] self.nodes@[i]) == (Node {
                            trans_liveliness: Some(
                                observe(
                                    acc_or_zero(old(self).nodes@[i].trans_liveliness),
                                    old(self).nodes@[i].s_t->0,
                                ) as i32,
                            ),
                            ..old(self).nodes@[i]
                        })
                    },
                forall|i: int|
                    idx as int <= i < n as int ==> #[trigger] self.nodes@[i]
                        == old(self).nodes@[i],
                self.cycle_len == old(self).cycle_len,
                self.trans_len == old(self).trans_len,
            decreases n - idx,
        {
            match self.nodes[idx].update_trans_liveliness() {
                Ok(()) => {},
                Err(e) => {
                    return Err(e);
                },
            }
            idx = idx + 1;
        }
        proof {
            assert(final(self).wiring() =~= old(self).wiring());
            assert(old(self).states_set());
        }
        Ok(())
    }

    /// Fold every node's current state onto its cycle tally. Fails with
    /// `NoCurrentState` when some node's state is unset.
    pub fn update_node_cycle_liveliness(&mut self) -> (r: Result<(), RbnError>)
        ensures
            final(self).nodes@.len() == old(self).nodes@.len(),
            final(self).cycle_len == old(self).cycle_len,
            final(self).trans_len == old(self).trans_len,
            final(self).wiring() == old(self).wiring(),
            old(self).states_set() <==> r == Result::<(), RbnError>::Ok(()),
            r is Err ==> r == Result::<(), RbnError>::Err(RbnError::NoCurrentState),
            r is Ok ==> forall|i: int|
                0 <= i < old(self).nodes@.len() ==> #[trigger] final(self).nodes@[i] == (Node {
                    cycle_liveliness: Some(
                        observe(
                            acc_or_zero(old(self).nodes@[i].cycle_liveliness),
                            old(self).nodes@[i].s_t->0,
                        ) as i32,
                    ),
                    ..old(self).nodes@[i]
                }),
    {
        let n = self.nodes.len();
        let mut idx: usize = 0;
        while idx < n
            invariant
                n == self.nodes@.len(),
                idx <= n,
                self.nodes@.len() == old(self).nodes@.len(),
                forall|i: int|
                    0 <= i < idx as int ==> (#[trigger] old(self).nodes@[i]).s_t is Some,
                forall|i: int|
                    0 <= i < idx as int ==> {
                        &&& old(self).nodes@[i].s_t is Some
                        &&& (#[trigger] self.nodes@[i]) == (Node {
                            cycle_liveliness: Some(
                                observe(
                                    acc_or_zero(old(self).nodes@[i].cycle_liveliness),
                                    old(self).nodes@[i].s_t->0,
                                ) as i32,
                            ),
                            ..old(self).nodes@[i]
                        })
                    },
                forall|i: int|
                    idx as int <= i < n as int ==> #[trigger] self.nodes@[i]
                        == old(self).nodes@[i],
                self.cycle_len == old(self).cycle_len,
                self.trans_len == old(self).trans_len,
            decreases n - idx,
        {
            match self.nodes[idx].update_cycle_liveliness() {
                Ok(()) => {},
                Err(e) => {
                    return Err(e);
                },
            }
            idx = idx + 1;
        }
        proof {
            assert(final(self).wiring() =~= old(self).wiring());
            assert(old(self).states_set());
        }
        Ok(())
    }
}

/// Fields a liveliness run leaves untouched: everything but the state slots
/// and the tallies.
pub open spec fn same_frame(a: Node, b: Node) -> bool {
    &&& a.function_table@ == b.function_table@
    &&& a.tbl_size == b.tbl_size
    &&& a.id == b.id
    &&& a.inputs@ == b.inputs@
    &&& a.influence == b.influence
}

impl RBN {
    /// Replay the transient and the cycle from the seed `init_state`,
    /// accumulating each node's transient tally over the transient phase and
    /// its cycle tally over the cycle phase. Requires both lengths computed
    /// beforehand, else fails with `MissingCycleOrTransient`.
    #[verifier::rlimit(100)]
    pub fn calculate_liveliness(&mut self, init_state: u64) -> (r: Result<(), RbnError>)
        requires
            old(self).wf(),
            old(self).nodes@.len() <= 64,
        ensures
            final(self).wf(),
            final(self).nodes@.len() == old(self).nodes@.len(),
            final(self).wiring() == old(self).wiring(),
            final(self).cycle_len == old(self).cycle_len,
            final(self).trans_len == old(self).trans_len,
            forall|i: int|
                0 <= i < old(self).nodes@.len() ==> same_frame(
                    #[trigger] final(self).nodes@[i],
                    old(self).nodes@[i],
                ),
            old(self).cycle_len is None || old(self).trans_len is None ==> r == Result::<
                (),
                RbnError,
            >::Err(RbnError::MissingCycleOrTransient) && *final(self) == *old(self),
            r matches Ok(()) ==> (old(self).cycle_len matches Some(cl)
                && old(self).trans_len matches Some(mu) && {
                let w = old(self).wiring();
                let v0 = pat64(init_state);
                let obs: nat = if mu == 0 {
                    1nat
                } else {
                    mu as nat
                };
                &&& final(self).states_set()
                &&& forall|i: int|
                    0 <= i < old(self).nodes@.len() ==> {
                        &&& (#[trigger] final(self).nodes@[i]).trans_liveliness == Some(
                            liv_sum(w, v0, 0, obs, i) as i32,
                        )
                        &&& final(self).nodes@[i].cycle_liveliness == (if cl == 0 {
                            Option::<i32>::None
                        } else {
                            Some(liv_sum(w, v0, obs, cl as nat, i) as i32)
                        })
                    }
            }),
            old(self).cycle_len is Some && old(self).trans_len is Some && r is Err ==> r
                == Result::<(), RbnError>::Err(RbnError::IndexOutOfRange),
            old(self).cycle_len is Some && old(self).trans_len is Some && tables_total(
                old(self).wiring(),
            ) ==> r is Ok,
    {
        let cl = match self.cycle_len {
            Some(c) => c,
            None => {
                return Err(RbnError::MissingCycleOrTransient);
            },
        };
        let mu = match self.trans_len {
            Some(m) => m,
            None => {
                return Err(RbnError::MissingCycleOrTransient);
            },
        };
        let ghost w = old(self).wiring();
        let ghost v0 = pat64(init_state);
        let ghost obs: nat = if mu == 0 {
            1nat
        } else {
            mu as nat
        };
        let n = self.nodes.len();
        self.reset_node_liveliness();
        let mut cur = RBNState::from_u64(init_state);
        proof {
            assert(cur.pattern@ =~= v0);
            lemma_iter_zero(w, v0);
        }
        self.set_state(&cur);
        proof {
            assert(self.wf());
        }
        proof {
            assert forall|i: int|
                0 <= i < n as int implies (#[trigger] self.nodes@[i]).s_t is Some by {
                assert(self.nodes@[i].s_t == Some(cur.pattern@[i]));
            }
            assert(self.states_set());
        }
        match self.update_node_trans_liveliness() {
            Ok(()) => {},
            Err(_) => {
                return unreached();
            },
        }
        proof {
            assert(liv_sum(w, v0, 0, 0, 0) == 0);
            assert forall|i: int| 0 <= i < n as int implies {
                &&& (#[trigger] self.nodes@[i]).trans_liveliness == Some(
                    liv_sum(w, v0, 0, 1, i) as i32,
                )
                &&& self.nodes@[i].cycle_liveliness is None
                &&& same_frame(self.nodes@[i], old(self).nodes@[i])
            } by {
                assert(liv_sum(w, v0, 0, 0, i) == 0);
                assert(liv_sum(w, v0, 0, 1, i) == observe(0, iter_pattern(w, v0, 0)[i]));
            }
        }
        let mut k: u64 = 1;
        while k < mu
            invariant
                self.wf(),
                self.nodes@.len() == n as int,
                n == old(self).nodes@.len(),
                n <= 64,
                self.wiring() == w,
                w == old(self).wiring(),
                old(self).cycle_len == Some(cl),
                old(self).trans_len == Some(mu),
                self.cycle_len == old(self).cycle_len,
                self.trans_len == old(self).trans_len,
                1 <= k,
                mu >= 1 ==> k <= mu,
                mu == 0 ==> k == 1,
                cur.pattern@.len() == 64,
                forall|j: int|
                    0 <= j < n as int ==> cur.pattern@[j] == iter_pattern(
                        w,
                        v0,
                        (k - 1) as nat,
                    )[j],
                forall|i: int|
                    0 <= i < n as int ==> (#[trigger] self.nodes@[i]).s_t == Some(cur.pattern@[i]),
                forall|i: int|
                    0 <= i < n as int ==> {
                        &&& (#[trigger] self.nodes@[i]).trans_liveliness == Some(
                            liv_sum(w, v0, 0, k as nat, i) as i32,
                        )
                        &&& self.nodes@[i].cycle_liveliness is None
                        &&& same_frame(self.nodes@[i], old(self).nodes@[i])
                    },
            decreases mu - k,
        {
            let next = match self.seed_and_step(&cur) {
                Ok(v) => v,
                Err(e) => {
                    proof {
                        if tables_total(w) {
                            lemma_tables_total_pattern_ok(w, cur.pattern@);
                            assert(false);
                        }
                    }
                    return Err(RbnError::IndexOutOfRange);
                },
            };
            self.sync();
            proof {
                lemma_next_pattern_prefix(w, cur.pattern@, iter_pattern(w, v0, (k - 1) as nat));
                lemma_iter_succ(w, v0, (k - 1) as nat);
                assert(next.pattern@ == iter_pattern(w, v0, k as nat));
            }
            cur = next;
            proof {
                assert forall|i: int|
                    0 <= i < n as int implies (#[trigger] self.nodes@[i]).s_t == Some(
                    cur.pattern@[i],
                ) by {}
                assert(self.states_set());
                assert forall|i: int| 0 <= i < n as int implies i32::MIN as int <= #[trigger]
                liv_sum(w, v0, 0, k as nat, i) <= i32::MAX as int by {
                    lemma_liv_sum_in_range(w, v0, 0, k as nat, i);
                }
            }
            match self.update_node_trans_liveliness() {
                Ok(()) => {},
                Err(_) => {
                    return unreached();
                },
            }
            proof {
                assert forall|i: int|
                    0 <= i < n as int implies (#[trigger] self.nodes@[i]).trans_liveliness == Some(
                    liv_sum(w, v0, 0, (k + 1) as nat, i) as i32,
                ) by {
                    assert(liv_sum(w, v0, 0, (k + 1) as nat, i) == observe(
                        liv_sum(w, v0, 0, k as nat, i),
                        iter_pattern(w, v0, k as nat)[i],
                    ));
                }
            }
            k = k + 1;
        }
        let mut j: u64 = 0;
        while j < cl
            invariant
                self.wf(),
                self.nodes@.len() == n as int,
                n == old(self).nodes@.len(),
                n <= 64,
                self.wiring() == w,
                w == old(self).wiring(),
                old(self).cycle_len == Some(cl),
                old(self).trans_len == Some(mu),
                self.cycle_len == old(self).cycle_len,
                self.trans_len == old(self).trans_len,
                obs == (if mu == 0 {
                    1nat
                } else {
                    mu as nat
                }),
                j <= cl,
                cur.pattern@.len() == 64,
                forall|jj: int|
                    0 <= jj < n as int ==> cur.pattern@[jj] == iter_pattern(
                        w,
                        v0,
                        (obs - 1 + j) as nat,
                    )[jj],
                forall|i: int|
                    0 <= i < n as int ==> (#[trigger] self.nodes@[i]).s_t == Some(cur.pattern@[i]),
                forall|i: int|
                    0 <= i < n as int ==> {
                        &&& (#[trigger] self.nodes@[i]).trans_liveliness == Some(
                            liv_sum(w, v0, 0, obs, i) as i32,
                        )
                        &&& self.nodes@[i].cycle_liveliness == (if j == 0 {
                            Option::<i32>::None
                        } else {
                            Some(liv_sum(w, v0, obs, j as nat, i) as i32)
                        })
                        &&& same_frame(self.nodes@[i], old(self).nodes@[i])
                    },
            decreases cl - j,
        {
            let next = match self.seed_and_step(&cur) {
                Ok(v) => v,
                Err(e) => {
                    proof {
                        if tables_total(w) {
                            lemma_tables_total_pattern_ok(w, cur.pattern@);
                            assert(false);
                        }
                    }
                    return Err(RbnError::IndexOutOfRange);
                },
            };
            self.sync();
            proof {
                lemma_next_pattern_prefix(w, cur.pattern@, iter_pattern(w, v0, (obs - 1 + j) as nat));
                lemma_iter_succ(w, v0, (obs - 1 + j) as nat);
                assert(next.pattern@ == iter_pattern(w, v0, (obs + j) as nat));
            }
            cur = next;
            proof {
                assert forall|i: int|
                    0 <= i < n as int implies (#[trigger] self.nodes@[i]).s_t == Some(
                    cur.pattern@[i],
                ) by {}
                assert(self.states_set());
                assert forall|i: int| 0 <= i < n as int implies i32::MIN as int <= #[trigger]
                liv_sum(w, v0, obs, j as nat, i) <= i32::MAX as int by {
                    lemma_liv_sum_in_range(w, v0, obs, j as nat, i);
                }
            }
            match self.update_node_cycle_liveliness() {
                Ok(()) => {},
                Err(_) => {
                    return unreached();
                },
            }
            proof {
                assert forall|i: int|
                    0 <= i < n as int implies (#[trigger] self.nodes@[i]).cycle_liveliness == Some(
                    liv_sum(w, v0, obs, (j + 1) as nat, i) as i32,
                ) by {
                    assert(liv_sum(w, v0, obs, (j + 1) as nat, i) == observe(
                        liv_sum(w, v0, obs, j as nat, i),
                        iter_pattern(w, v0, (obs + j) as nat)[i],
                    ));
                }
            }
            j = j + 1;
        }
        Ok(())
    }
}

} // verus!
