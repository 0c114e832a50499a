//! Network-wide laws: influence accounting across the whole wiring,
//! determinism of detection, and bounds on liveliness tallies.

use vstd::prelude::*;

use crate::liveliness::{count_true, lemma_liv_sum_bounds, liv_sum};
use crate::node::Node;
use crate::orbit::{is_cycle_length, is_transient_length};
use crate::rbn::{influence_of, influence_upto, iter_pattern, wire_end, wiring_wf, NodeWiring, RBN};

verus! {

/// The influence counts of the first `m` nodes, summed over the first `k`
/// input slots of the wiring.
pub open spec fn sum_counts(w: Seq<NodeWiring>, k: int, m: int) -> int
    decreases m,
{
    if m <= 0 {
        0
    } else {
        sum_counts(w, k, m - 1) + influence_upto(w, k, m - 1)
    }
}

/// The influence fields of the first `m` nodes, summed.
pub open spec fn sum_node_influence(nodes: Seq<Node>, m: int) -> int
    decreases m,
{
    if m <= 0 {
        0
    } else {
        sum_node_influence(nodes, m - 1) + (match nodes[m - 1].influence {
            Some(v) => v as int,
            None => 0,
        })
    }
}

proof fn lemma_sum_counts_zero(w: Seq<NodeWiring>, m: int)
    ensures
        sum_counts(w, 0, m) == 0,
    decreases m,
{
    if m > 0 {
        lemma_sum_counts_zero(w, m - 1);
    }
}

proof fn lemma_sum_counts_step(w: Seq<NodeWiring>, k: int, m: int)
    requires
        k >= 0,
    ensures
        sum_counts(w, k + 1, m) == sum_counts(w, k, m) + (if 0 <= wire_end(w, k) < m {
            1int
        } else {
            0int
        }),
    decreases m,
{
    if m > 0 {
        lemma_sum_counts_step(w, k, m - 1);
    }
}

proof fn lemma_sum_counts_total(w: Seq<NodeWiring>, k: int)
    requires
        wiring_wf(w),
        0 <= k <= 2 * w.len(),
    ensures
        sum_counts(w, k, w.len() as int) == k,
    decreases k,
{
    if k == 0 {
        lemma_sum_counts_zero(w, w.len() as int);
    } else {
        lemma_sum_counts_total(w, k - 1);
        lemma_sum_counts_step(w, k - 1, w.len() as int);
        assert(0 <= (k - 1) / 2 < w.len());
        assert(0 <= wire_end(w, k - 1) < w.len());
    }
}

/// Every input edge contributes exactly one influence increment, so over a
/// network whose influence counters match its wiring, the influences of all
/// nodes sum to twice the node count: `n * k` for the fixed fan-in `k = 2`.
pub proof fn lemma_total_influence(net: RBN)
    requires
        net.wf(),
        net.nodes@.len() <= 32767,
        forall|j: int|
            0 <= j < net.nodes@.len() ==> (#[trigger] net.nodes@[j]).influence == Some(
                influence_of(net.wiring(), j) as u16,
            ),
    ensures
        sum_node_influence(net.nodes@, net.nodes@.len() as int) == 2 * net.nodes@.len(),
{
    let w = net.wiring();
    let n = net.nodes@.len() as int;
    assert forall|i: int| 0 <= i < w.len() implies 0 <= #[trigger] w[i].in0 < w.len() && 0
        <= w[i].in1 < w.len() by {
        assert(net.nodes@[i].inputs@.len() == 2);
    }
    assert forall|m: int| 0 <= m <= n implies #[trigger] sum_node_influence(net.nodes@, m)
        == sum_counts(w, 2 * n, m) by {
        lemma_sum_node_matches(net, m);
    }
    lemma_sum_counts_total(w, 2 * n);
}

proof fn lemma_sum_node_matches(net: RBN, m: int)
    requires
        net.wf(),
        net.nodes@.len() <= 32767,
        0 <= m <= net.nodes@.len(),
        forall|j: int|
            0 <= j < net.nodes@.len() ==> (#[trigger] net.nodes@[j]).influence == Some(
                influence_of(net.wiring(), j) as u16,
            ),
    ensures
        sum_node_influence(net.nodes@, m) == sum_counts(
            net.wiring(),
            2 * net.nodes@.len() as int,
            m,
        ),
    decreases m,
{
    if m > 0 {
        lemma_sum_node_matches(net, m - 1);
        crate::rbn::lemma_influence_upto_bound(
            net.wiring(),
            2 * net.nodes@.len() as int,
            m - 1,
        );
    }
}

/// Detection is a function of the network and the seed alone: any two runs
/// that satisfy the cycle-length and transient-length characterizations agree
/// on both lengths. Repeated runs from the same seed return the same pair.
pub proof fn lemma_detection_deterministic(
    w: Seq<NodeWiring>,
    v0: Seq<bool>,
    c1: nat,
    c2: nat,
    m1: nat,
    m2: nat,
)
    requires
        is_cycle_length(w, v0, c1),
        is_cycle_length(w, v0, c2),
        is_transient_length(w, v0, c1, m1),
        is_transient_length(w, v0, c2, m2),
    ensures
        c1 == c2,
        m1 == m2,
{
    assert(c1 <= c2 && c2 <= c1);
    if m1 < m2 {
        assert(iter_pattern(w, v0, (m1 + c2) as nat) != iter_pattern(w, v0, m1));
    }
    if m2 < m1 {
        assert(iter_pattern(w, v0, (m2 + c1) as nat) != iter_pattern(w, v0, m2));
    }
}

/// A liveliness tally over a phase of `count` observations has magnitude at
/// most `count`, and while `count` fits the accumulator, its sign matches the
/// majority state over the phase: positive means more active than inactive
/// observations, negative the reverse.
pub proof fn lemma_liveliness_tally_bounds(
    w: Seq<NodeWiring>,
    v0: Seq<bool>,
    start: nat,
    count: nat,
    i: int,
)
    ensures
        -(count as int) <= liv_sum(w, v0, start, count, i) <= count as int,
        count <= i32::MAX as int ==> {
            &&& liv_sum(w, v0, start, count, i) > 0 ==> 2 * count_true(w, v0, start, count, i)
                > count
            &&& liv_sum(w, v0, start, count, i) < 0 ==> 2 * count_true(w, v0, start, count, i)
                < count
        },
{
    lemma_liv_sum_bounds(w, v0, start, count, i);
}

} // verus!
