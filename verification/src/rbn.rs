//! The network: an ordered arena of nodes plus cached cycle/transient
//! lengths, with construction (random or from an explicit definition) and the
//! two-phase synchronous update protocol.

use vstd::prelude::*;

use crate::bits::u64_bit;
use crate::errors::RbnError;
use crate::node::Node;
use crate::rng::random_index_below;
use crate::state::RBNState;

verus! {

/// The structural content of one node, as the update rule sees it: its truth
/// table and the indices of its two inputs.
pub ghost struct NodeWiring {
    pub table: Seq<bool>,
    pub in0: int,
    pub in1: int,
}

/// The wiring of a whole node arena, index-aligned with it.
pub open spec fn wiring_of(nodes: Seq<Node>) -> Seq<NodeWiring> {
    Seq::new(
        nodes.len(),
        |i: int|
            NodeWiring {
                table: nodes[i].function_table@,
                in0: nodes[i].inputs@[0] as int,
                in1: nodes[i].inputs@[1] as int,
            },
    )
}

/// A wiring is well formed when every input index points inside the arena.
pub open spec fn wiring_wf(w: Seq<NodeWiring>) -> bool {
    forall|i: int|
        0 <= i < w.len() ==> 0 <= #[trigger] w[i].in0 < w.len() && 0 <= w[i].in1 < w.len()
}

/// The truth-table address two input states form: the left input contributes
/// 1, the right input contributes 2.
pub open spec fn addr_of(l: bool, r: bool) -> int {
    (if l {
        1int
    } else {
        0int
    }) + (if r {
        2int
    } else {
        0int
    })
}

/// The address node `i` reads when the network state is `v`.
pub open spec fn paddr(w: Seq<NodeWiring>, v: Seq<bool>, i: int) -> int {
    addr_of(v[w[i].in0], v[w[i].in1])
}

/// Whether every node's address falls inside its truth table for state `v`.
pub open spec fn pattern_ok(w: Seq<NodeWiring>, v: Seq<bool>) -> bool {
    forall|i: int| 0 <= i < w.len() ==> 0 <= #[trigger] paddr(w, v, i) < w[i].table.len()
}

/// One synchronous step of the update rule on a width-64 state pattern:
/// positions holding nodes are looked up in their tables, the rest are false.
pub open spec fn next_pattern(w: Seq<NodeWiring>, v: Seq<bool>) -> Seq<bool> {
    Seq::new(
        64,
        |i: int|
            if i < w.len() {
                w[i].table[paddr(w, v, i)]
            } else {
                false
            },
    )
}

/// The state pattern after `k` synchronous steps from `v0`.
#[verifier::opaque]
pub open spec fn iter_pattern(w: Seq<NodeWiring>, v0: Seq<bool>, k: nat) -> Seq<bool>
    decreases k,
{
    if k == 0 {
        v0
    } else {
        next_pattern(w, iter_pattern(w, v0, (k - 1) as nat))
    }
}

/// The width-64 pattern whose entries are the bits of `num`, least
/// significant first.
pub open spec fn pat64(num: u64) -> Seq<bool> {
    Seq::new(64, |i: int| u64_bit(num, i))
}

/// The wire named by the `k`-th input slot of a wiring, slots being counted
/// two per node in node order.
pub open spec fn wire_end(w: Seq<NodeWiring>, k: int) -> int {
    if k % 2 == 0 {
        w[k / 2].in0
    } else {
        w[k / 2].in1
    }
}

/// How many of the first `k` input slots name node `j`.
pub open spec fn influence_upto(w: Seq<NodeWiring>, k: int, j: int) -> int
    decreases k,
{
    if k <= 0 {
        0
    } else {
        influence_upto(w, k - 1, j) + if wire_end(w, k - 1) == j {
            1int
        } else {
            0int
        }
    }
}

/// How many input slots across the whole wiring name node `j`: the node's
/// influence.
pub open spec fn influence_of(w: Seq<NodeWiring>, j: int) -> int {
    influence_upto(w, 2 * (w.len() as int), j)
}

/// A slot count is bounded by the number of slots examined.
pub proof fn lemma_influence_upto_bound(w: Seq<NodeWiring>, k: int, j: int)
    ensures
        0 <= influence_upto(w, k, j) <= if k <= 0 {
            0int
        } else {
            k
        },
    decreases k,
{
    if k > 0 {
        lemma_influence_upto_bound(w, k - 1, j);
    }
}

/// Slot counts over the first `k` slots read only the first `(k+1)/2` nodes
/// of the wiring, so they agree between wirings that agree there.
pub proof fn lemma_influence_upto_prefix(
    w1: Seq<NodeWiring>,
    w2: Seq<NodeWiring>,
    k: int,
    j: int,
)
    requires
        forall|m: int|
            0 <= m < (k + 1) / 2 ==> #[trigger] w1[m].in0 == w2[m].in0 && w1[m].in1 == w2[m].in1,
    ensures
        influence_upto(w1, k, j) == influence_upto(w2, k, j),
    decreases k,
{
    if k > 0 {
        lemma_influence_upto_prefix(w1, w2, k - 1, j);
    }
}

/// Wiring one node adds its two input slots to the running counts: the slot
/// count through `k0 + 1` slots credits `a` once, and through `k0 + 2` slots
/// credits `b` once more.
pub proof fn lemma_influence_two_slots(w: Seq<NodeWiring>, k0: int, a: int, b: int)
    requires
        k0 >= 0,
        wire_end(w, k0) == a,
        wire_end(w, k0 + 1) == b,
    ensures
        forall|j: int|
            #[trigger] influence_upto(w, k0 + 1, j) == influence_upto(w, k0, j) + (if a == j {
                1int
            } else {
                0int
            }),
        forall|j: int|
            #[trigger] influence_upto(w, k0 + 2, j) == influence_upto(w, k0 + 1, j) + (if b == j {
                1int
            } else {
                0int
            }),
{
    assert forall|j: int| #[trigger]
        influence_upto(w, k0 + 1, j) == influence_upto(w, k0, j) + (if a == j {
            1int
        } else {
            0int
        }) by {
        assert(influence_upto(w, k0 + 1, j) == influence_upto(w, k0, j) + (if wire_end(w, k0)
            == j {
            1int
        } else {
            0int
        }));
    }
    assert forall|j: int| #[trigger]
        influence_upto(w, k0 + 2, j) == influence_upto(w, k0 + 1, j) + (if b == j {
            1int
        } else {
            0int
        }) by {
        assert(influence_upto(w, k0 + 2, j) == influence_upto(w, k0 + 1, j) + (if wire_end(
            w,
            k0 + 1,
        ) == j {
            1int
        } else {
            0int
        }));
    }
}

/// A boolean network: an arena of nodes wired by index, and the cycle and
/// transient lengths cached by the most recent detection run (stale if node
/// states are mutated afterwards; keeping them fresh is the caller's duty).
#[derive(Debug)]
pub struct RBN {
    /// The nodes, in construction order; a node's position equals its id.
    pub nodes: Vec<Node>,
    /// Cycle length found by the most recent detection run.
    pub cycle_len: Option<u64>,
    /// Transient length found by the most recent detection run.
    pub trans_len: Option<u64>,
}

impl RBN {
    /// The network's wiring.
    pub open spec fn wiring(self) -> Seq<NodeWiring> {
        wiring_of(self.nodes@)
    }

    /// Structural well-formedness: every node has exactly two inputs, both
    /// inside the arena, keeps its position as its id, and carries its table
    /// size.
    pub open spec fn wf(self) -> bool {
        forall|i: int|
            0 <= i < self.nodes@.len() ==> {
                &&& (#[trigger] self.nodes@[i]).inputs@.len() == 2
                &&& self.nodes@[i].inputs@[0] < self.nodes@.len()
                &&& self.nodes@[i].inputs@[1] < self.nodes@.len()
                &&& self.nodes@[i].id == i
                &&& self.nodes@[i].tbl_size == self.nodes@[i].function_table@.len()
            }
    }

    /// Whether every node currently holds a state.
    pub open spec fn states_set(self) -> bool {
        forall|i: int| 0 <= i < self.nodes@.len() ==> (#[trigger] self.nodes@[i]).s_t is Some
    }

    /// Whether every node's influence counter has been finalized.
    pub open spec fn influences_set(self) -> bool {
        forall|i: int| 0 <= i < self.nodes@.len() ==> (#[trigger] self.nodes@[i]).influence is Some
    }

    /// The live node states as a width-64 pattern, false beyond the arena.
    pub open spec fn live_pattern(self) -> Seq<bool> {
        Seq::new(
            64,
            |i: int|
                if i < self.nodes@.len() {
                    self.nodes@[i].s_t->0
                } else {
                    false
                },
        )
    }

    /// Create a network of `n` nodes with random truth tables and random
    /// wiring: each node draws two inputs uniformly (with replacement,
    /// self-loops allowed) from all `n` nodes. Only a fan-in of two is
    /// supported.
    pub fn new(k: u8, n: u16) -> (r: Result<RBN, RbnError>)
        requires
            k == 2 ==> n <= 32767,
        ensures
            k != 2 ==> r == Result::<RBN, RbnError>::Err(RbnError::UnsupportedFanIn),
            k == 2 ==> (r matches Ok(net) && {
                &&& net.wf()
                &&& net.nodes@.len() == n as int
                &&& forall|i: int|
                    0 <= i < n as int ==> (#[trigger] net.nodes@[i]).function_table@.len() == 4
                &&& forall|i: int|
                    0 <= i < n as int ==> (#[trigger] net.nodes@[i]).inputs@.len() == 2
                &&& forall|i: int|
                    0 <= i < n as int ==> (#[trigger] net.nodes@[i]).s_t == Some(true)
                        && net.nodes@[i].s_nt == Some(false)
                        && net.nodes@[i].trans_liveliness is None
                        && net.nodes@[i].cycle_liveliness is None
                &&& forall|j: int|
                    0 <= j < n as int ==> (#[trigger] net.nodes@[j]).influence == Some(
                        influence_of(net.wiring(), j) as u16,
                    )
                &&& net.cycle_len is None
                &&& net.trans_len is None
            }),
    {
        if k != 2 {
            return Err(RbnError::UnsupportedFanIn);
        }
        let mut nodes: Vec<Node> = Vec::new();
        let mut x: u16 = 0;
        while x < n
            invariant
                x <= n,
                nodes@.len() == x as int,
                forall|i: int|
                    0 <= i < x as int ==> {
                        &&& (#[trigger] nodes@[i]).function_table@.len() == 4
                        &&& nodes@[i].tbl_size == 4
                        &&& nodes@[i].s_t == Some(true)
                        &&& nodes@[i].s_nt == Some(false)
                        &&& nodes@[i].trans_liveliness is None
                        &&& nodes@[i].cycle_liveliness is None
                        &&& nodes@[i].id == i
                        &&& nodes@[i].inputs@.len() == 0
                        &&& nodes@[i].influence is None
                    },
            decreases n - x,
        {
            match Node::new(2, x) {
                Ok(nd) => {
                    assert((1usize << 2u8) == 4usize) by (bit_vector);
                    nodes.push(nd);
                },
                Err(_) => {
                    return unreached();
                },
            }
            x = x + 1;
        }
        let ghost n_int = n as int;
        let mut idx: usize = 0;
        while idx < nodes.len()
            invariant
                n <= 32767,
                n_int == n as int,
                nodes@.len() == n_int,
                idx <= n_int,
                forall|i: int|
                    0 <= i < n_int ==> {
                        &&& (#[trigger] nodes@[i]).function_table@.len() == 4
                        &&& nodes@[i].tbl_size == 4
                        &&& nodes@[i].s_t == Some(true)
                        &&& nodes@[i].s_nt == Some(false)
                        &&& nodes@[i].trans_liveliness is None
                        &&& nodes@[i].cycle_liveliness is None
                        &&& nodes@[i].id == i
                    },
                forall|i: int|
                    0 <= i < idx as int ==> (#[trigger] nodes@[i]).inputs@.len() == 2
                        && nodes@[i].inputs@[0] < n && nodes@[i].inputs@[1] < n,
                forall|i: int| idx as int <= i < n_int ==> (#[trigger] nodes@[i]).inputs@.len() == 0,
                forall|j: int|
                    0 <= j < n_int ==> {
                        let cnt = influence_upto(wiring_of(nodes@), 2 * idx as int, j);
                        match (#[trigger] nodes@[j]).influence {
                            Some(v) => v as int == cnt,
                            None => cnt == 0,
                        }
                    },
            decreases nodes@.len() - idx,
        {
            let ghost w_before = wiring_of(nodes@);
            let ghost k0 = 2 * idx as int;
            let a = random_index_below(n);
            let b = random_index_below(n);
            let node_ref = &mut nodes[idx];
            node_ref.inputs.push(a);
            node_ref.inputs.push(b);
            let ghost w = wiring_of(nodes@);
            proof {
                assert forall|j: int|
                    #[trigger] influence_upto(w, k0, j) == influence_upto(w_before, k0, j) by {
                    lemma_influence_upto_prefix(w, w_before, k0, j);
                }
                assert(wire_end(w, k0) == a as int);
                assert(wire_end(w, k0 + 1) == b as int);
                lemma_influence_two_slots(w, k0, a as int, b as int);
                lemma_influence_upto_bound(w, k0, a as int);
            }
            nodes[a as usize].inc_influence();
            proof {
                assert(wiring_of(nodes@) =~= w);
                lemma_influence_upto_bound(w, k0 + 1, b as int);
            }
            nodes[b as usize].inc_influence();
            proof {
                assert(wiring_of(nodes@) =~= w);
                assert forall|j: int| 0 <= j < n_int implies {
                    let cnt = influence_upto(w, k0 + 2, j);
                    match (#[trigger] nodes@[j]).influence {
                        Some(v) => v as int == cnt,
                        None => cnt == 0,
                    }
                } by {
                    assert(influence_upto(w, k0 + 1, j) == influence_upto(w, k0, j) + (
                    if a as int == j {
                        1int
                    } else {
                        0int
                    }));
                    assert(influence_upto(w, k0 + 2, j) == influence_upto(w, k0 + 1, j) + (
                    if b as int == j {
                        1int
                    } else {
                        0int
                    }));
                }
            }
            idx = idx + 1;
        }
        let mut j: usize = 0;
        while j < nodes.len()
            invariant
                nodes@.len() == n_int,
                j <= n_int,
                forall|i: int|
                    0 <= i < n_int ==> {
                        &&& (#[trigger] nodes@[i]).function_table@.len() == 4
                        &&& nodes@[i].tbl_size == 4
                        &&& nodes@[i].s_t == Some(true)
                        &&& nodes@[i].s_nt == Some(false)
                        &&& nodes@[i].trans_liveliness is None
                        &&& nodes@[i].cycle_liveliness is None
                        &&& nodes@[i].id == i
                        &&& nodes@[i].inputs@.len() == 2
                        &&& nodes@[i].inputs@[0] < n
                        &&& nodes@[i].inputs@[1] < n
                    },
                forall|i: int|
                    0 <= i < n_int ==> {
                        let cnt = influence_upto(wiring_of(nodes@), 2 * n_int, i);
                        if i < j as int {
                            (#[trigger] nodes@[i]).influence == Some(cnt as u16)
                        } else {
                            match nodes@[i].influence {
                                Some(v) => v as int == cnt,
                                None => cnt == 0,
                            }
                        }
                    },
            decreases nodes@.len() - j,
        {
            let ghost w_before = wiring_of(nodes@);
            proof {
                lemma_influence_upto_bound(w_before, 2 * n_int, j as int);
            }
            nodes[j].structure_set();
            proof {
                assert(wiring_of(nodes@) =~= w_before);
            }
            j = j + 1;
        }
        let net = RBN { nodes, cycle_len: None, trans_len: None };
        Ok(net)
    }

    /// Create a network with the given truth tables and wiring: node `i`
    /// computes from inputs `strct_tbl[i].0` (left) and `strct_tbl[i].1`
    /// (right). The two tables must pair up one to one.
    pub fn new_from_def(nd_tbls: Vec<Vec<bool>>, strct_tbl: Vec<(usize, usize)>) -> (r: Result<
        RBN,
        RbnError,
    >)
        requires
            nd_tbls@.len() == strct_tbl@.len() ==> {
                &&& nd_tbls@.len() <= 32767
                &&& forall|i: int|
                    0 <= i < strct_tbl@.len() ==> (#[trigger] strct_tbl@[i]).0 < nd_tbls@.len()
                        && strct_tbl@[i].1 < nd_tbls@.len()
                &&& forall|i: int|
                    0 <= i < nd_tbls@.len() ==> vstd::arithmetic::power2::is_pow2(
                        (#[trigger] nd_tbls@[i])@.len() as int,
                    )
            },
        ensures
            nd_tbls@.len() != strct_tbl@.len() ==> r == Result::<RBN, RbnError>::Err(
                RbnError::StructureMismatch,
            ),
            nd_tbls@.len() == strct_tbl@.len() ==> (r matches Ok(net) && {
                &&& net.wf()
                &&& net.nodes@.len() == nd_tbls@.len()
                &&& forall|i: int|
                    0 <= i < nd_tbls@.len() ==> (#[trigger] net.nodes@[i]).function_table@
                        == nd_tbls@[i]@
                &&& forall|i: int|
                    0 <= i < nd_tbls@.len() ==> (#[trigger] net.nodes@[i]).inputs@.len() == 2
                        && net.nodes@[i].inputs@[0] == strct_tbl@[i].0 as u16
                        && net.nodes@[i].inputs@[1] == strct_tbl@[i].1 as u16
                &&& forall|i: int|
                    0 <= i < nd_tbls@.len() ==> (#[trigger] net.nodes@[i]).s_t == Some(true)
                        && net.nodes@[i].s_nt == Some(true)
                        && net.nodes@[i].trans_liveliness is None
                        && net.nodes@[i].cycle_liveliness is None
                &&& forall|j: int|
                    0 <= j < nd_tbls@.len() ==> (#[trigger] net.nodes@[j]).influence == Some(
                        influence_of(net.wiring(), j) as u16,
                    )
                &&& net.cycle_len is None
                &&& net.trans_len is None
            }),
    {
        if nd_tbls.len() != strct_tbl.len() {
            return Err(RbnError::StructureMismatch);
        }
        let n = nd_tbls.len();
        let ghost n_int = n as int;
        let mut nodes: Vec<Node> = Vec::new();
        let mut id: usize = 0;
        while id < n
            invariant
                n_int == nd_tbls@.len(),
                n == nd_tbls@.len(),
                n <= 32767,
                forall|i: int|
                    0 <= i < n_int ==> vstd::arithmetic::power2::is_pow2(
                        (#[trigger] nd_tbls@[i])@.len() as int,
                    ),
                id <= n,
                nodes@.len() == id as int,
                forall|i: int|
                    0 <= i < id as int ==> {
                        &&& (#[trigger] nodes@[i]).function_table@ == nd_tbls@[i]@
                        &&& nodes@[i].tbl_size == nd_tbls@[i]@.len()
                        &&& nodes@[i].s_t == Some(true)
                        &&& nodes@[i].s_nt == Some(true)
                        &&& nodes@[i].trans_liveliness is None
                        &&& nodes@[i].cycle_liveliness is None
                        &&& nodes@[i].id == i
                        &&& nodes@[i].inputs@.len() == 0
                        &&& nodes@[i].influence is None
                    },
            decreases n - id,
        {
            let tbl = nd_tbls[id].clone();
            proof {
                assert(tbl@ =~= nd_tbls@[id as int]@);
            }
            nodes.push(Node::new_with_tbl(tbl, id as u16));
            id = id + 1;
        }
        let mut idx: usize = 0;
        while idx < n
            invariant
                n <= 32767,
                n_int == n as int,
                n == nd_tbls@.len(),
                n == strct_tbl@.len(),
                forall|i: int|
                    0 <= i < n_int ==> (#[trigger] strct_tbl@[i]).0 < n && strct_tbl@[i].1 < n,
                nodes@.len() == n_int,
                idx <= n,
                forall|i: int|
                    0 <= i < n_int ==> {
                        &&& (#[trigger] nodes@[i]).function_table@ == nd_tbls@[i]@
                        &&& nodes@[i].tbl_size == nd_tbls@[i]@.len()
                        &&& nodes@[i].s_t == Some(true)
                        &&& nodes@[i].s_nt == Some(true)
                        &&& nodes@[i].trans_liveliness is None
                        &&& nodes@[i].cycle_liveliness is None
                        &&& nodes@[i].id == i
                    },
                forall|i: int|
                    0 <= i < idx as int ==> (#[trigger] nodes@[i]).inputs@.len() == 2
                        && nodes@[i].inputs@[0] == strct_tbl@[i].0 as u16
                        && nodes@[i].inputs@[1] == strct_tbl@[i].1 as u16,
                forall|i: int| idx as int <= i < n_int ==> (#[trigger] nodes@[i]).inputs@.len() == 0,
                forall|j: int|
                    0 <= j < n_int ==> {
                        let cnt = influence_upto(wiring_of(nodes@), 2 * idx as int, j);
                        match (#[trigger] nodes@[j]).influence {
                            Some(v) => v as int == cnt,
                            None => cnt == 0,
                        }
                    },
            decreases n - idx,
        {
            let ghost w_before = wiring_of(nodes@);
            let ghost k0 = 2 * idx as int;
            let a = strct_tbl[idx].0;
            let b = strct_tbl[idx].1;
            let node_ref = &mut nodes[idx];
            node_ref.inputs.push(a as u16);
            node_ref.inputs.push(b as u16);
            let ghost w = wiring_of(nodes@);
            proof {
                assert forall|j: int|
                    #[trigger] influence_upto(w, k0, j) == influence_upto(w_before, k0, j) by {
                    lemma_influence_upto_prefix(w, w_before, k0, j);
                }
                assert(wire_end(w, k0) == a as int);
                assert(wire_end(w, k0 + 1) == b as int);
                lemma_influence_two_slots(w, k0, a as int, b as int);
                lemma_influence_upto_bound(w, k0, a as int);
            }
            nodes[a].inc_influence();
            proof {
                assert(wiring_of(nodes@) =~= w);
                lemma_influence_upto_bound(w, k0 + 1, b as int);
            }
            nodes[b].inc_influence();
            proof {
                assert(wiring_of(nodes@) =~= w);
                assert forall|j: int| 0 <= j < n_int implies {
                    let cnt = influence_upto(w, k0 + 2, j);
                    match (#[trigger] nodes@[j]).influence {
                        Some(v) => v as int == cnt,
                        None => cnt == 0,
                    }
                } by {
                    assert(influence_upto(w, k0 + 1, j) == influence_upto(w, k0, j) + (
                    if a as int == j {
                        1int
                    } else {
                        0int
                    }));
                    assert(influence_upto(w, k0 + 2, j) == influence_upto(w, k0 + 1, j) + (
                    if b as int == j {
                        1int
                    } else {
                        0int
                    }));
                }
            }
            idx = idx + 1;
        }
        let mut j: usize = 0;
        while j < n
            invariant
                n_int == n as int,
                n == nd_tbls@.len(),
                n == strct_tbl@.len(),
                nodes@.len() == n_int,
                j <= n,
                forall|i: int|
                    0 <= i < n_int ==> {
                        &&& (#[trigger] nodes@[i]).function_table@ == nd_tbls@[i]@
                        &&& nodes@[i].tbl_size == nd_tbls@[i]@.len()
                        &&& nodes@[i].s_t == Some(true)
                        &&& nodes@[i].s_nt == Some(true)
                        &&& nodes@[i].trans_liveliness is None
                        &&& nodes@[i].cycle_liveliness is None
                        &&& nodes@[i].id == i
                        &&& nodes@[i].inputs@.len() == 2
                        &&& nodes@[i].inputs@[0] == strct_tbl@[i].0 as u16
                        &&& nodes@[i].inputs@[1] == strct_tbl@[i].1 as u16
                        &&& strct_tbl@[i].0 < n
                        &&& strct_tbl@[i].1 < n
                    },
                forall|i: int|
                    0 <= i < n_int ==> {
                        let cnt = influence_upto(wiring_of(nodes@), 2 * n_int, i);
                        if i < j as int {
                            (#[trigger] nodes@[i]).influence == Some(cnt as u16)
                        } else {
                            match nodes@[i].influence {
                                Some(v) => v as int == cnt,
                                None => cnt == 0,
                            }
                        }
                    },
            decreases n - j,
        {
            let ghost w_before = wiring_of(nodes@);
            proof {
                lemma_influence_upto_bound(w_before, 2 * n_int, j as int);
            }
            nodes[j].structure_set();
            proof {
                assert(wiring_of(nodes@) =~= w_before);
            }
            j = j + 1;
        }
        let net = RBN { nodes, cycle_len: None, trans_len: None };
        Ok(net)
    }

    /// Force every node's current state from the snapshot and clear any
    /// staged state, seeding the network at an arbitrary point.
    pub fn set_state(&mut self, state: &RBNState)
        requires
            state.pattern@.len() >= old(self).nodes@.len(),
        ensures
            final(self).nodes@.len() == old(self).nodes@.len(),
            forall|i: int|
                0 <= i < old(self).nodes@.len() ==> #[trigger] final(self).nodes@[i] == (Node {
                    s_t: Some(state.pattern@[i]),
                    s_nt: None,
                    ..old(self).nodes@[i]
                }),
            final(self).cycle_len == old(self).cycle_len,
            final(self).trans_len == old(self).trans_len,
            final(self).wiring() == old(self).wiring(),
    {
        let n = self.nodes.len();
        let mut idx: usize = 0;
        while idx < n
            invariant
                n == self.nodes@.len(),
                n <= state.pattern@.len(),
                idx <= n,
                self.nodes@.len() == old(self).nodes@.len(),
                forall|i: int|
                    0 <= i < idx as int ==> #[trigger] self.nodes@[i] == (Node {
                        s_t: Some(state.pattern@[i]),
                        s_nt: None,
                        ..old(self).nodes@[i]
                    }),
                forall|i: int|
                    idx as int <= i < n as int ==> #[trigger] self.nodes@[i]
                        == old(self).nodes@[i],
                self.cycle_len == old(self).cycle_len,
                self.trans_len == old(self).trans_len,
            decreases n - idx,
        {
            let v = state.get(idx);
            self.nodes[idx].set_current_state(v);
            idx = idx + 1;
        }
        proof {
            assert(final(self).wiring() =~= old(self).wiring());
        }
    }

    /// Stage every node's next state from the current states of its two
    /// inputs and return the staged pattern as a snapshot, without touching
    /// any current state. Fails when an input state is missing or a formed
    /// address falls outside a truth table, leaving the network unchanged.
    pub fn step(&mut self) -> (r: Result<RBNState, RbnError>)
        requires
            old(self).wf(),
            old(self).nodes@.len() <= 64,
        ensures
            final(self).nodes@.len() == old(self).nodes@.len(),
            final(self).cycle_len == old(self).cycle_len,
            final(self).trans_len == old(self).trans_len,
            final(self).wiring() == old(self).wiring(),
            final(self).wf(),
            (old(self).inputs_ready() && pattern_ok(old(self).wiring(), old(self).live_pattern()))
                <==> r is Ok,
            r matches Ok(v) ==> {
                &&& v.pattern@.len() == 64
                &&& v.pattern@ == next_pattern(old(self).wiring(), old(self).live_pattern())
                &&& forall|i: int|
                    0 <= i < old(self).nodes@.len() ==> #[trigger] final(self).nodes@[i] == (Node {
                        s_nt: Some(v.pattern@[i]),
                        ..old(self).nodes@[i]
                    })
            },
            r is Err ==> *final(self) == *old(self),
            r is Err ==> r == Result::<RBNState, RbnError>::Err(RbnError::NoCurrentState) || r
                == Result::<RBNState, RbnError>::Err(RbnError::IndexOutOfRange),
            old(self).inputs_ready() && r is Err ==> r == Result::<RBNState, RbnError>::Err(
                RbnError::IndexOutOfRange,
            ),
    {
        let n = self.nodes.len();
        let ghost w = self.wiring();
        let ghost lp = self.live_pattern();
        let mut next: Vec<bool> = Vec::new();
        let mut idx: usize = 0;
        while idx < n
            invariant
                self == old(self),
                self.wf(),
                n == self.nodes@.len(),
                n <= 64,
                w == self.wiring(),
                lp == self.live_pattern(),
                idx <= n,
                next@.len() == idx as int,
                forall|i: int|
                    0 <= i < idx as int ==> {
                        &&& (#[trigger] self.nodes@[i]).inputs@.len() == 2
                        &&& self.nodes@[self.nodes@[i].inputs@[0] as int].s_t is Some
                        &&& self.nodes@[self.nodes@[i].inputs@[1] as int].s_t is Some
                        &&& 0 <= paddr(w, lp, i) < w[i].table.len()
                        &&& next@[i] == w[i].table[paddr(w, lp, i)]
                    },
            decreases n - idx,
        {
            let in0 = self.nodes[idx].inputs[0] as usize;
            let in1 = self.nodes[idx].inputs[1] as usize;
            let l = match self.nodes[in0].s_t {
                Some(v) => v,
                None => {
                    return Err(RbnError::NoCurrentState);
                },
            };
            let r = match self.nodes[in1].s_t {
                Some(v) => v,
                None => {
                    return Err(RbnError::NoCurrentState);
                },
            };
            let mut sum: usize = 0;
            if l {
                sum = sum + 1;
            }
            if r {
                sum = sum + 2;
            }
            proof {
                assert(lp[in0 as int] == self.nodes@[in0 as int].s_t->0);
                assert(lp[in1 as int] == self.nodes@[in1 as int].s_t->0);
                assert(sum as int == paddr(w, lp, idx as int));
            }
            if sum >= self.nodes[idx].function_table.len() {
                return Err(RbnError::IndexOutOfRange);
            }
            next.push(self.nodes[idx].function_table[sum]);
            idx = idx + 1;
        }
        // all nodes are ready: stage the results and build the snapshot
        let mut pattern: Vec<bool> = Vec::new();
        let mut i: usize = 0;
        while i < 64
            invariant
                n <= 64,
                next@.len() == n as int,
                i <= 64,
                pattern@.len() == i as int,
                forall|j: int|
                    0 <= j < i as int ==> #[trigger] pattern@[j] == (if j < n as int {
                        next@[j]
                    } else {
                        false
                    }),
            decreases 64 - i,
        {
            if i < n {
                pattern.push(next[i]);
            } else {
                pattern.push(false);
            }
            i = i + 1;
        }
        let ghost np = next_pattern(w, lp);
        proof {
            assert(pattern@ =~= np);
        }
        let mut idx2: usize = 0;
        while idx2 < n
            invariant
                n == self.nodes@.len(),
                pattern@ == np,
                np.len() == 64,
                n <= 64,
                idx2 <= n,
                self.nodes@.len() == old(self).nodes@.len(),
                forall|i: int|
                    0 <= i < idx2 as int ==> #[trigger] self.nodes@[i] == (Node {
                        s_nt: Some(np[i]),
                        ..old(self).nodes@[i]
                    }),
                forall|i: int|
                    idx2 as int <= i < n as int ==> #[trigger] self.nodes@[i]
                        == old(self).nodes@[i],
                self.cycle_len == old(self).cycle_len,
                self.trans_len == old(self).trans_len,
            decreases n - idx2,
        {
            let v = pattern[idx2];
            let node_ref = &mut self.nodes[idx2];
            node_ref.s_nt = Some(v);
            idx2 = idx2 + 1;
        }
        proof {
            assert(final(self).wiring() =~= old(self).wiring());
        }
        Ok(RBNState { pattern })
    }

    /// One synchronous tick: stage every next state, then commit the staged
    /// states, and hand back the committed snapshot. On failure the network
    /// is left untouched.
    pub(crate) fn step_and_sync(&mut self) -> (r: Result<RBNState, RbnError>)
        requires
            old(self).wf(),
            old(self).nodes@.len() <= 64,
        ensures
            final(self).wf(),
            final(self).nodes@.len() == old(self).nodes@.len(),
            final(self).wiring() == old(self).wiring(),
            final(self).cycle_len == old(self).cycle_len,
            final(self).trans_len == old(self).trans_len,
            forall|i: int|
                0 <= i < old(self).nodes@.len() ==> crate::node::same_static(
                    #[trigger] final(self).nodes@[i],
                    old(self).nodes@[i],
                ),
            (old(self).inputs_ready() && pattern_ok(old(self).wiring(), old(self).live_pattern()))
                <==> r is Ok,
            r matches Ok(v) ==> {
                &&& v.pattern@.len() == 64
                &&& v.pattern@ == next_pattern(old(self).wiring(), old(self).live_pattern())
                &&& final(self).live_pattern() == v.pattern@
                &&& final(self).states_set()
            },
            r is Err ==> *final(self) == *old(self),
            r is Err ==> r == Result::<RBNState, RbnError>::Err(RbnError::NoCurrentState) || r
                == Result::<RBNState, RbnError>::Err(RbnError::IndexOutOfRange),
            old(self).inputs_ready() && r is Err ==> r == Result::<RBNState, RbnError>::Err(
                RbnError::IndexOutOfRange,
            ),
    {
        let v = match self.step() {
            Ok(v) => v,
            Err(e) => {
                return Err(e);
            },
        };
        self.sync();
        proof {
            assert(self.live_pattern() =~= v.pattern@);
        }
        Ok(v)
    }

    /// Seed the live state from a snapshot and stage one step from it,
    /// returning the staged pattern. The staged result depends only on the
    /// snapshot, not on the states the network held before.
    pub(crate) fn seed_and_step(&mut self, s: &RBNState) -> (r: Result<RBNState, RbnError>)
        requires
            old(self).wf(),
            old(self).nodes@.len() <= 64,
            s.pattern@.len() == 64,
        ensures
            final(self).wf(),
            final(self).nodes@.len() == old(self).nodes@.len(),
            final(self).wiring() == old(self).wiring(),
            final(self).cycle_len == old(self).cycle_len,
            final(self).trans_len == old(self).trans_len,
            forall|i: int|
                0 <= i < old(self).nodes@.len() ==> crate::node::same_static(
                    #[trigger] final(self).nodes@[i],
                    old(self).nodes@[i],
                ),
            pattern_ok(old(self).wiring(), s.pattern@) <==> r is Ok,
            r matches Ok(v) ==> {
                &&& v.pattern@.len() == 64
                &&& v.pattern@ == next_pattern(old(self).wiring(), s.pattern@)
                &&& forall|i: int|
                    0 <= i < old(self).nodes@.len() ==> (#[trigger] final(self).nodes@[i]).s_nt
                        == Some(v.pattern@[i])
            },
            r is Err ==> r == Result::<RBNState, RbnError>::Err(RbnError::IndexOutOfRange),
            final(self).states_set(),
    {
        let ghost w = old(self).wiring();
        proof {
            assert forall|i: int| 0 <= i < w.len() implies 0 <= #[trigger] w[i].in0 < w.len() && 0
                <= w[i].in1 < w.len() by {
                assert(old(self).nodes@[i].inputs@.len() == 2);
            }
        }
        self.set_state(s);
        proof {
            assert(self.wf());
            assert forall|j: int| 0 <= j < w.len() implies self.live_pattern()[j]
                == s.pattern@[j] by {
                assert(self.nodes@[j].s_t == Some(s.pattern@[j]));
            }
            crate::orbit::lemma_next_pattern_prefix(w, self.live_pattern(), s.pattern@);
            assert forall|i: int| 0 <= i < self.nodes@.len() implies {
                &&& self.nodes@[(#[trigger] self.nodes@[i]).inputs@[0] as int].s_t is Some
                &&& self.nodes@[self.nodes@[i].inputs@[1] as int].s_t is Some
            } by {
                assert(self.nodes@[self.nodes@[i].inputs@[0] as int].s_t == Some(
                    s.pattern@[self.nodes@[i].inputs@[0] as int],
                ));
                assert(self.nodes@[self.nodes@[i].inputs@[1] as int].s_t == Some(
                    s.pattern@[self.nodes@[i].inputs@[1] as int],
                ));
            }
            assert(self.inputs_ready());
        }
        let ghost before_step = *self;
        let r = self.step();
        proof {
            assert forall|i: int|
                0 <= i < self.nodes@.len() implies (#[trigger] self.nodes@[i]).s_t is Some by {
                if r is Err {
                    assert(self.nodes@[i] == before_step.nodes@[i]);
                }
            }
        }
        r
    }

    /// Whether every node's two input states are currently set.
    pub open spec fn inputs_ready(self) -> bool {
        forall|i: int|
            0 <= i < self.nodes@.len() ==> {
                &&& self.nodes@[(#[trigger] self.nodes@[i]).inputs@[0] as int].s_t is Some
                &&& self.nodes@[self.nodes@[i].inputs@[1] as int].s_t is Some
            }
    }

    /// Commit every node's staged state into its current state and clear the
    /// staged slot, finishing one synchronous tick.
    pub fn sync(&mut self)
        ensures
            final(self).nodes@.len() == old(self).nodes@.len(),
            forall|i: int|
                0 <= i < old(self).nodes@.len() ==> #[trigger] final(self).nodes@[i] == (Node {
                    s_t: old(self).nodes@[i].s_nt,
                    s_nt: None,
                    ..old(self).nodes@[i]
                }),
            final(self).cycle_len == old(self).cycle_len,
            final(self).trans_len == old(self).trans_len,
            final(self).wiring() == old(self).wiring(),
    {
        let n = self.nodes.len();
        let mut idx: usize = 0;
        while idx < n
            invariant
                n == self.nodes@.len(),
                idx <= n,
                self.nodes@.len() == old(self).nodes@.len(),
                forall|i: int|
                    0 <= i < idx as int ==> #[trigger] self.nodes@[i] == (Node {
                        s_t: old(self).nodes@[i].s_nt,
                        s_nt: None,
                        ..old(self).nodes@[i]
                    }),
                forall|i: int|
                    idx as int <= i < n as int ==> #[trigger] self.nodes@[i]
                        == old(self).nodes@[i],
                self.cycle_len == old(self).cycle_len,
                self.trans_len == old(self).trans_len,
            decreases n - idx,
        {
            self.nodes[idx].update_state();
            idx = idx + 1;
        }
        proof {
            assert(final(self).wiring() =~= old(self).wiring());
        }
    }
}

} // verus!
