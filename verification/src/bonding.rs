//! Interaction groups ("bonding sites"): a greedy, influence-ordered
//! partition of the nodes into chains that follow input links, plus the
//! coarse stability report the particle layer consumes.

use vstd::prelude::*;

use crate::errors::RbnError;
use crate::node::Node;
use crate::orbit::{is_cycle_length, is_transient_length, small_period, tables_total};
use crate::rbn::{pat64, RBN};

verus! {

/// The coarse classification of a network's dynamics that the particle layer
/// consumes.
#[derive(Debug, Clone, Copy, PartialEq, Eq, Structural)]
pub enum Stability {
    Stable,
    Unstable { cycle: u64, transient: u64 },
}

/// One interaction group: a chain of node ids linked by influence-preferred
/// inputs.
#[derive(Debug)]
pub struct BondingSite {
    /// The node ids of the chain, in the order they were claimed.
    pub interaction_list: Vec<u16>,
}

impl BondingSite {
    /// A bonding site over the given chain of node ids.
    pub fn new(il: Vec<u16>) -> (r: BondingSite)
        ensures
            r.interaction_list@ == il@,
    {
        BondingSite { interaction_list: il }
    }
}

/// All node ids named by a sequence of groups, in group order.
pub open spec fn flatten_ids(gs: Seq<BondingSite>) -> Seq<u16>
    decreases gs.len(),
{
    if gs.len() == 0 {
        Seq::empty()
    } else {
        flatten_ids(gs.drop_last()) + gs.last().interaction_list@
    }
}

/// Appending a group appends exactly its ids.
pub proof fn lemma_flatten_push(gs: Seq<BondingSite>, g: BondingSite)
    ensures
        flatten_ids(gs.push(g)) == flatten_ids(gs) + g.interaction_list@,
{
    assert(gs.push(g).drop_last() =~= gs);
    assert(gs.push(g).last() == g);
}

/// How many positions of a flag sequence are set.
pub open spec fn num_assigned(s: Seq<bool>) -> int
    decreases s.len(),
{
    if s.len() == 0 {
        0
    } else {
        num_assigned(s.drop_last()) + (if s.last() {
            1int
        } else {
            0int
        })
    }
}

proof fn lemma_num_assigned_bounds(s: Seq<bool>)
    ensures
        0 <= num_assigned(s) <= s.len(),
    decreases s.len(),
{
    if s.len() > 0 {
        lemma_num_assigned_bounds(s.drop_last());
    }
}

proof fn lemma_num_assigned_full(s: Seq<bool>)
    requires
        num_assigned(s) == s.len(),
    ensures
        forall|j: int| 0 <= j < s.len() ==> s[j],
    decreases s.len(),
{
    if s.len() > 0 {
        lemma_num_assigned_bounds(s.drop_last());
        lemma_num_assigned_full(s.drop_last());
        assert forall|j: int| 0 <= j < s.len() implies s[j] by {
            if j < s.len() - 1 {
                assert(s.drop_last()[j]);
            }
        }
    }
}

proof fn lemma_num_assigned_update(s: Seq<bool>, j: int)
    requires
        0 <= j < s.len(),
        !s[j],
    ensures
        num_assigned(s.update(j, true)) == num_assigned(s) + 1,
    decreases s.len(),
{
    let su = s.update(j, true);
    if j == s.len() - 1 {
        assert(su.drop_last() =~= s.drop_last());
    } else {
        assert(su.drop_last() =~= s.drop_last().update(j, true));
        lemma_num_assigned_update(s.drop_last(), j);
    }
}

proof fn lemma_push_unique(s: Seq<u16>, v: u16)
    requires
        s.no_duplicates(),
        !s.contains(v),
    ensures
        s.push(v).no_duplicates(),
        forall|x: u16| s.push(v).contains(x) <==> (s.contains(x) || x == v),
{
    let sp = s.push(v);
    assert forall|i: int, j: int|
        0 <= i < sp.len() && 0 <= j < sp.len() && i != j implies sp[i] != sp[j] by {
        if i < s.len() && j < s.len() {
            assert(s[i] != s[j]);
        } else if i < s.len() {
            assert(sp[j] == v);
            assert(s[i] != v) by {
                if s[i] == v {
                    assert(s.contains(v));
                }
            }
        } else {
            assert(sp[i] == v);
            assert(s[j] != v) by {
                if s[j] == v {
                    assert(s.contains(v));
                }
            }
        }
    }
    assert forall|x: u16| sp.contains(x) <==> (s.contains(x) || x == v) by {
        if s.contains(x) {
            let i = choose|i: int| 0 <= i < s.len() && s[i] == x;
            assert(sp[i] == x);
        }
        if x == v {
            assert(sp[s.len() as int] == v);
        }
        if sp.contains(x) {
            let i = choose|i: int| 0 <= i < sp.len() && sp[i] == x;
            if i < s.len() {
                assert(s[i] == x);
            }
        }
    }
}

/// The finalized influence of node `j`.
pub open spec fn node_influence(nodes: Seq<Node>, j: int) -> int {
    nodes[j].influence->0 as int
}

/// Of the two inputs of `cur`, the one the influence ordering prefers: the
/// less influential for the "least" mode, the more influential otherwise, a
/// tie handing the first input to the "least" side.
pub open spec fn preferred_input(nodes: Seq<Node>, least: bool, cur: int) -> int {
    let i0 = nodes[cur].inputs@[0] as int;
    let i1 = nodes[cur].inputs@[1] as int;
    if node_influence(nodes, i0) <= node_influence(nodes, i1) {
        if least {
            i0
        } else {
            i1
        }
    } else {
        if least {
            i1
        } else {
            i0
        }
    }
}

/// The node a chain claims after its tail `cur`: the preferred input while
/// unassigned, else the other input, else none and the chain ends.
pub open spec fn chain_next(nodes: Seq<Node>, assigned: Seq<bool>, least: bool, cur: int) -> Option<
    int,
> {
    let p = preferred_input(nodes, least, cur);
    let o = preferred_input(nodes, !least, cur);
    if !assigned[p] {
        Some(p)
    } else if !assigned[o] {
        Some(o)
    } else {
        None
    }
}

/// The seed an ascending scan of the first `upto` nodes settles on: the
/// unassigned node of extreme influence, a later candidate displacing the
/// held one when at least as influential (most mode) or strictly less
/// influential (least mode) — so influence ties fall to the largest id in
/// most mode and to the smallest id in least mode.
pub open spec fn seed_scan(nodes: Seq<Node>, assigned: Seq<bool>, least: bool, upto: int) -> Option<
    int,
>
    decreases upto,
{
    if upto <= 0 {
        None
    } else {
        let prev = seed_scan(nodes, assigned, least, upto - 1);
        let j = upto - 1;
        if assigned[j] {
            prev
        } else {
            match prev {
                None => Some(j),
                Some(b) => if least {
                    if node_influence(nodes, j) < node_influence(nodes, b) {
                        Some(j)
                    } else {
                        Some(b)
                    }
                } else {
                    if node_influence(nodes, j) >= node_influence(nodes, b) {
                        Some(j)
                    } else {
                        Some(b)
                    }
                },
            }
        }
    }
}

/// The ids a chain claims after its seed within `budget` more slots, and the
/// assignment flags it leaves behind.
pub open spec fn grow_chain(
    nodes: Seq<Node>,
    assigned: Seq<bool>,
    least: bool,
    cur: int,
    budget: nat,
) -> (Seq<u16>, Seq<bool>)
    decreases budget,
{
    if budget == 0 {
        (Seq::<u16>::empty(), assigned)
    } else {
        match chain_next(nodes, assigned, least, cur) {
            None => (Seq::<u16>::empty(), assigned),
            Some(nx) => {
                let rest = grow_chain(nodes, assigned.update(nx, true), least, nx, (budget - 1) as nat);
                (seq![nx as u16] + rest.0, rest.1)
            },
        }
    }
}

/// The groups the greedy emits from the given flags on, taking at most `fuel`
/// more groups: seed a chain with the scan's extreme unassigned node, grow it
/// along preferred inputs up to the cap, and continue on what is left.
pub open spec fn build_groups(
    nodes: Seq<Node>,
    assigned: Seq<bool>,
    least: bool,
    cap: nat,
    fuel: nat,
) -> Seq<Seq<u16>>
    decreases fuel,
{
    if fuel == 0 {
        Seq::empty()
    } else {
        match seed_scan(nodes, assigned, least, nodes.len() as int) {
            None => Seq::empty(),
            Some(s) => {
                let grown = grow_chain(nodes, assigned.update(s, true), least, s, (cap - 1) as nat);
                seq![seq![s as u16] + grown.0] + build_groups(
                    nodes,
                    grown.1,
                    least,
                    cap,
                    (fuel - 1) as nat,
                )
            },
        }
    }
}

/// The interaction groups as a pure function of the arena, the mode and the
/// effective group-size cap.
pub open spec fn interaction_groups_spec(nodes: Seq<Node>, least: bool, cap: nat) -> Seq<Seq<u16>> {
    build_groups(nodes, Seq::new(nodes.len(), |i: int| false), least, cap, nodes.len())
}

/// The groups' id chains, in group order.
pub open spec fn group_views(gs: Seq<BondingSite>) -> Seq<Seq<u16>> {
    Seq::new(gs.len(), |i: int| gs[i].interaction_list@)
}

/// A scan over wholly assigned nodes settles on nothing.
proof fn lemma_seed_scan_all_assigned(nodes: Seq<Node>, assigned: Seq<bool>, least: bool, upto: int)
    requires
        forall|j: int| 0 <= j < upto ==> #[trigger] assigned[j],
    ensures
        seed_scan(nodes, assigned, least, upto) is None,
    decreases upto,
{
    if upto > 0 {
        lemma_seed_scan_all_assigned(nodes, assigned, least, upto - 1);
    }
}


/// Arena shape the greedy walks over: every node has exactly two inputs, both
/// inside the arena. A well-formed network's node list satisfies it.
pub open spec fn arena_wf(nodes: Seq<Node>) -> bool {
    forall|i: int|
        0 <= i < nodes.len() ==> (#[trigger] nodes[i]).inputs@.len() == 2 && nodes[i].inputs@[0]
            < nodes.len() && nodes[i].inputs@[1] < nodes.len()
}

/// A scan that settles on a seed settles on an unassigned node in its range.
proof fn lemma_seed_scan_some(nodes: Seq<Node>, assigned: Seq<bool>, least: bool, upto: int)
    ensures
        seed_scan(nodes, assigned, least, upto) matches Some(s) ==> 0 <= s < upto && !assigned[s],
    decreases upto,
{
    if upto > 0 {
        lemma_seed_scan_some(nodes, assigned, least, upto - 1);
    }
}

/// Growing a chain never changes how many flags there are.
proof fn lemma_grow_chain_len(nodes: Seq<Node>, assigned: Seq<bool>, least: bool, cur: int, b: nat)
    requires
        arena_wf(nodes),
        assigned.len() == nodes.len(),
        0 <= cur < nodes.len(),
    ensures
        grow_chain(nodes, assigned, least, cur, b).1.len() == assigned.len(),
    decreases b,
{
    if b > 0 {
        match chain_next(nodes, assigned, least, cur) {
            None => {},
            Some(nx) => {
                assert(nodes[cur].inputs@.len() == 2);
                assert(0 <= nx < nodes.len());
                assert(assigned.update(nx, true).len() == assigned.len());
                lemma_grow_chain_len(nodes, assigned.update(nx, true), least, nx, (b - 1) as nat);
            },
        }
    }
}

/// With enough budget to claim every still-unassigned node, the budget no
/// longer matters: a chain grows identically under any two sufficient budgets.
proof fn lemma_grow_chain_budget(
    nodes: Seq<Node>,
    assigned: Seq<bool>,
    least: bool,
    cur: int,
    b1: nat,
    b2: nat,
)
    requires
        arena_wf(nodes),
        assigned.len() == nodes.len(),
        0 <= cur < nodes.len(),
        b1 + num_assigned(assigned) >= nodes.len(),
        b2 + num_assigned(assigned) >= nodes.len(),
    ensures
        grow_chain(nodes, assigned, least, cur, b1) == grow_chain(nodes, assigned, least, cur, b2),
    decreases nodes.len() - num_assigned(assigned),
{
    lemma_num_assigned_bounds(assigned);
    match chain_next(nodes, assigned, least, cur) {
        None => {},
        Some(nx) => {
            assert(nodes[cur].inputs@.len() == 2);
            assert(0 <= nx < nodes.len());
            assert(!assigned[nx]);
            if num_assigned(assigned) == nodes.len() {
                lemma_num_assigned_full(assigned);
                assert(false);
            }
            assert(b1 >= 1 && b2 >= 1);
            lemma_num_assigned_update(assigned, nx);
            lemma_grow_chain_budget(
                nodes,
                assigned.update(nx, true),
                least,
                nx,
                (b1 - 1) as nat,
                (b2 - 1) as nat,
            );
        },
    }
}

proof fn lemma_build_groups_cap(
    nodes: Seq<Node>,
    assigned: Seq<bool>,
    least: bool,
    cap1: nat,
    cap2: nat,
    fuel: nat,
)
    requires
        arena_wf(nodes),
        assigned.len() == nodes.len(),
        cap1 >= nodes.len(),
        cap1 >= 1,
        cap2 >= nodes.len(),
        cap2 >= 1,
    ensures
        build_groups(nodes, assigned, least, cap1, fuel) == build_groups(
            nodes,
            assigned,
            least,
            cap2,
            fuel,
        ),
    decreases fuel,
{
    if fuel > 0 {
        match seed_scan(nodes, assigned, least, nodes.len() as int) {
            None => {},
            Some(s) => {
                lemma_seed_scan_some(nodes, assigned, least, nodes.len() as int);
                lemma_num_assigned_bounds(assigned);
                lemma_num_assigned_update(assigned, s);
                let a1 = assigned.update(s, true);
                lemma_grow_chain_budget(nodes, a1, least, s, (cap1 - 1) as nat, (cap2 - 1) as nat);
                let grown = grow_chain(nodes, a1, least, s, (cap1 - 1) as nat);
                lemma_grow_chain_len(nodes, a1, least, s, (cap1 - 1) as nat);
                lemma_build_groups_cap(nodes, grown.1, least, cap1, cap2, (fuel - 1) as nat);
            },
        }
    }
}

/// A well-formed network's node list is an arena the greedy can walk.
pub proof fn lemma_wf_arena(net: RBN)
    requires
        net.wf(),
    ensures
        arena_wf(net.nodes@),
{
    assert forall|i: int|
        0 <= i < net.nodes@.len() implies (#[trigger] net.nodes@[i]).inputs@.len() == 2
        && net.nodes@[i].inputs@[0] < net.nodes@.len() && net.nodes@[i].inputs@[1]
        < net.nodes@.len() by {
        assert(net.nodes@[i].id == i);
    }
}

/// Once the group-size cap reaches the node count it never binds: the greedy
/// emits the same groups under every such cap, so raising the cap further
/// cannot change the result.
pub proof fn lemma_groups_cap_invariant(nodes: Seq<Node>, least: bool, cap1: nat, cap2: nat)
    requires
        arena_wf(nodes),
        cap1 >= nodes.len(),
        cap1 >= 1,
        cap2 >= nodes.len(),
        cap2 >= 1,
    ensures
        interaction_groups_spec(nodes, least, cap1) == interaction_groups_spec(nodes, least, cap2),
{
    let a0 = Seq::new(nodes.len(), |i: int| false);
    lemma_build_groups_cap(nodes, a0, least, cap1, cap2, nodes.len());
}

impl RBN {
    /// The influence counter of one node, after wiring has finished.
    fn influence_at(&self, idx: usize) -> (r: u16)
        requires
            self.influences_set(),
            idx < self.nodes@.len(),
        ensures
            Some(r) == self.nodes@[idx as int].influence,
    {
        match self.nodes[idx].influence {
            Some(v) => v,
            None => unreached(),
        }
    }

    /// The seed of the next chain: scan all nodes in ascending id order and
    /// keep the extreme-influence unassigned one, later candidates winning
    /// ties in most mode and losing them in least mode.
    fn find_seed(&self, assigned: &Vec<bool>, least: bool) -> (r: Option<usize>)
        requires
            self.influences_set(),
            assigned@.len() == self.nodes@.len(),
        ensures
            match r {
                Some(s) => {
                    &&& seed_scan(self.nodes@, assigned@, least, self.nodes@.len() as int) == Some(
                        s as int,
                    )
                    &&& s < self.nodes@.len()
                    &&& !assigned@[s as int]
                },
                None => {
                    &&& seed_scan(self.nodes@, assigned@, least, self.nodes@.len() as int) is None
                    &&& forall|j: int| 0 <= j < self.nodes@.len() ==> #[trigger] assigned@[j]
                },
            },
    {
        let n = self.nodes.len();
        let mut seed: usize = 0;
        let mut found = false;
        let mut idx: usize = 0;
        while idx < n
            invariant
                self.influences_set(),
                n == self.nodes@.len(),
                assigned@.len() == n as int,
                idx <= n,
                found ==> seed < idx && !assigned@[seed as int] && seed_scan(
                    self.nodes@,
                    assigned@,
                    least,
                    idx as int,
                ) == Some(seed as int),
                !found ==> (forall|j: int| 0 <= j < idx as int ==> #[trigger] assigned@[j])
                    && seed_scan(self.nodes@, assigned@, least, idx as int) is None,
            decreases n - idx,
        {
            if !assigned[idx] {
                if !found {
                    found = true;
                    seed = idx;
                } else {
                    let cur_inf = self.influence_at(idx);
                    let best_inf = self.influence_at(seed);
                    proof {
                        assert(cur_inf as int == node_influence(self.nodes@, idx as int));
                        assert(best_inf as int == node_influence(self.nodes@, seed as int));
                    }
                    if least {
                        if cur_inf < best_inf {
                            seed = idx;
                        }
                    } else {
                        if cur_inf >= best_inf {
                            seed = idx;
                        }
                    }
                }
            }
            idx = idx + 1;
        }
        if found {
            Some(seed)
        } else {
            None
        }
    }

    /// Partition all nodes into disjoint ordered chains ("interaction
    /// groups"): repeatedly seed a chain with the most (or, when
    /// `is_least_inf` is set, the least) influential unassigned node — ties
    /// broken by id — and grow it along the tail's influence-preferred input
    /// while that input is unassigned, falling back to the other input,
    /// stopping at `max_group_size`. The result is exactly the greedy
    /// recursion `interaction_groups_spec`, and every node lands in exactly
    /// one group.
    #[verifier::rlimit(100)]
    pub fn generate_interaction_groups_inf(&self, max_group_size: u16, is_least_inf: bool) -> (r:
        Vec<BondingSite>)
        requires
            self.wf(),
            self.influences_set(),
        ensures
            group_views(r@) == interaction_groups_spec(
                self.nodes@,
                is_least_inf,
                if max_group_size == 0 {
                    1nat
                } else {
                    max_group_size as nat
                },
            ),
            flatten_ids(r@).no_duplicates(),
            forall|x: u16| #[trigger]
                flatten_ids(r@).contains(x) <==> (x as int) < self.nodes@.len(),
            forall|g: int|
                0 <= g < r@.len() ==> 1 <= (#[trigger] r@[g]).interaction_list@.len()
                    && r@[g].interaction_list@.len() <= (if max_group_size == 0 {
                    1int
                } else {
                    max_group_size as int
                }),
    {
        let n = self.nodes.len();
        proof {
            if n >= 1 {
                assert(self.nodes@[n as int - 1].id == n as int - 1);
            }
            assert(n <= 0x10000);
        }
        let mut assigned: Vec<bool> = Vec::new();
        let mut z: usize = 0;
        while z < n
            invariant
                z <= n,
                assigned@.len() == z as int,
                forall|j: int| 0 <= j < z as int ==> !(#[trigger] assigned@[j]),
            decreases n - z,
        {
            assigned.push(false);
            z = z + 1;
        }
        proof {
            assert(num_assigned(assigned@) == 0) by {
                lemma_num_assigned_bounds(assigned@);
                if num_assigned(assigned@) > 0 {
                    lemma_num_assigned_nonzero(assigned@);
                }
            }
        }
        let mut remaining: usize = n;
        let mut groups: Vec<BondingSite> = Vec::new();
        let ghost mut flat: Seq<u16> = Seq::empty();
        let cap: u16 = if max_group_size == 0 {
            1
        } else {
            max_group_size
        };
        let ghost target = interaction_groups_spec(self.nodes@, is_least_inf, cap as nat);
        proof {
            assert(assigned@ =~= Seq::new(self.nodes@.len(), |i: int| false));
            assert(group_views(groups@) =~= Seq::<Seq<u16>>::empty());
            assert(target == Seq::<Seq<u16>>::empty() + build_groups(
                self.nodes@,
                assigned@,
                is_least_inf,
                cap as nat,
                n as nat,
            ));
        }
        while remaining > 0
            invariant
                self.wf(),
                self.influences_set(),
                n == self.nodes@.len(),
                n <= 0x10000,
                assigned@.len() == n as int,
                remaining <= n,
                remaining as int + num_assigned(assigned@) == n as int,
                groups@.len() + remaining <= n as int,
                flat == flatten_ids(groups@),
                flat.no_duplicates(),
                forall|x: u16| #[trigger]
                    flat.contains(x) <==> ((x as int) < n as int && assigned@[x as int]),
                cap >= 1,
                cap as int == (if max_group_size == 0 {
                    1int
                } else {
                    max_group_size as int
                }),
                target == interaction_groups_spec(self.nodes@, is_least_inf, cap as nat),
                target == group_views(groups@) + build_groups(
                    self.nodes@,
                    assigned@,
                    is_least_inf,
                    cap as nat,
                    (n as int - groups@.len()) as nat,
                ),
                forall|g: int|
                    0 <= g < groups@.len() ==> 1 <= (#[trigger] groups@[g]).interaction_list@.len()
                        && groups@[g].interaction_list@.len() <= cap as int,
            decreases remaining,
        {
            let ghost rem0 = remaining;
            let ghost a_start = assigned@;
            let ghost fuel0 = (n as int - groups@.len()) as nat;
            // pick the extreme unassigned node as the seed of a new chain
            let seed = match self.find_seed(&assigned, is_least_inf) {
                Some(s) => s,
                None => {
                    proof {
                        lemma_num_assigned_all(assigned@);
                    }
                    return unreached();
                },
            };
            // claim the seed and grow the chain from it
            let mut chain: Vec<u16> = Vec::new();
            chain.push(seed as u16);
            let ghost assigned_before = assigned@;
            let ghost flat_before = flat;
            proof {
                assert(!flat.contains(seed as u16));
                lemma_push_unique(flat, seed as u16);
                lemma_num_assigned_update(assigned@, seed as int);
                flat = flat.push(seed as u16);
            }
            assigned[seed] = true;
            remaining = remaining - 1;
            proof {
                assert forall|x: u16| #[trigger]
                    flat.contains(x) <==> ((x as int) < n as int && assigned@[x as int]) by {
                    assert(flat_before.contains(x) <==> ((x as int) < n as int
                        && assigned_before[x as int]));
                    assert(flat.contains(x) <==> (flat_before.contains(x) || x == seed as u16));
                    assert(assigned@ == assigned_before.update(seed as int, true));
                }
            }
            let ghost a_chain0 = assigned@;
            let ghost budget0 = (cap - 1) as nat;
            let ghost g_full = grow_chain(self.nodes@, a_chain0, is_least_inf, seed as int, budget0);
            proof {
                assert(a_chain0 == a_start.update(seed as int, true));
                // unfold the greedy one group: the seed's chain, then the rest
                assert(fuel0 >= 1);
                assert(build_groups(self.nodes@, a_start, is_least_inf, cap as nat, fuel0) == seq![
                    seq![seed as u16] + g_full.0,
                ] + build_groups(
                    self.nodes@,
                    g_full.1,
                    is_least_inf,
                    cap as nat,
                    (fuel0 - 1) as nat,
                ));
            }
            let mut cur: usize = seed;
            let mut size: u16 = 1;
            let mut done = false;
            while size < cap && !done
                invariant
                    self.wf(),
                    self.influences_set(),
                    n == self.nodes@.len(),
                    n <= 0x10000,
                    assigned@.len() == n as int,
                    remaining <= n,
                    remaining < rem0,
                    remaining as int + num_assigned(assigned@) == n as int,
                    cur < n,
                    1 <= size <= cap,
                    1 <= chain@.len() <= size as int,
                    chain@[0] == seed as u16,
                    flat == flatten_ids(groups@) + chain@,
                    flat.no_duplicates(),
                    forall|x: u16| #[trigger]
                        flat.contains(x) <==> ((x as int) < n as int && assigned@[x as int]),
                    g_full == grow_chain(
                        self.nodes@,
                        a_chain0,
                        is_least_inf,
                        seed as int,
                        budget0,
                    ),
                    g_full.0 == chain@.drop_first() + grow_chain(
                        self.nodes@,
                        assigned@,
                        is_least_inf,
                        cur as int,
                        if done {
                            0nat
                        } else {
                            (cap - size) as nat
                        },
                    ).0,
                    g_full.1 == grow_chain(
                        self.nodes@,
                        assigned@,
                        is_least_inf,
                        cur as int,
                        if done {
                            0nat
                        } else {
                            (cap - size) as nat
                        },
                    ).1,
                decreases cap - size + (if done {
                    0int
                } else {
                    1int
                }),
            {
                let ghost bnow = (cap - size) as nat;
                size = size + 1;
                let in0 = self.nodes[cur].inputs[0] as usize;
                let in1 = self.nodes[cur].inputs[1] as usize;
                let inf0 = self.influence_at(in0);
                let inf1 = self.influence_at(in1);
                let pick = match self.nodes[cur].get_input_by_inf(is_least_inf, inf0, inf1) {
                    Some(p) => p as usize,
                    None => unreached(),
                };
                let other = match self.nodes[cur].get_input_by_inf(!is_least_inf, inf0, inf1) {
                    Some(p) => p as usize,
                    None => unreached(),
                };
                proof {
                    assert(pick < n && other < n);
                    assert(inf0 as int == node_influence(self.nodes@, in0 as int));
                    assert(inf1 as int == node_influence(self.nodes@, in1 as int));
                    assert(pick as int == preferred_input(self.nodes@, is_least_inf, cur as int));
                    assert(other as int == preferred_input(self.nodes@, !is_least_inf, cur as int));
                }
                let next = if !assigned[pick] {
                    pick
                } else if !assigned[other] {
                    other
                } else {
                    done = true;
                    cur
                };
                if !done {
                    proof {
                        assert(chain_next(self.nodes@, assigned@, is_least_inf, cur as int)
                            == Some(next as int));
                    }
                    chain.push(next as u16);
                    let ghost assigned_before = assigned@;
                    let ghost flat_before = flat;
                    let ghost chain_before = chain@.drop_last();
                    proof {
                        assert(!flat.contains(next as u16));
                        lemma_push_unique(flat, next as u16);
                        lemma_num_assigned_update(assigned@, next as int);
                        flat = flat.push(next as u16);
                        assert(flatten_ids(groups@) + chain@ =~= (flatten_ids(groups@)
                            + chain@.drop_last()).push(next as u16));
                        if remaining == 0 {
                            lemma_num_assigned_full(assigned_before);
                            assert(false);
                        }
                    }
                    assigned[next] = true;
                    proof {
                        lemma_num_assigned_bounds(assigned@);
                        assert forall|x: u16| #[trigger]
                            flat.contains(x) <==> ((x as int) < n as int && assigned@[x as int]) by {
                            assert(flat_before.contains(x) <==> ((x as int) < n as int
                                && assigned_before[x as int]));
                            assert(flat.contains(x) <==> (flat_before.contains(x) || x == next
                                as u16));
                            assert(assigned@ == assigned_before.update(next as int, true));
                        }
                        // one more link of the chain matches one more step of
                        // the greedy recursion
                        assert(grow_chain(self.nodes@, assigned_before, is_least_inf, cur as int, bnow)
                            == (seq![next as u16] + grow_chain(
                            self.nodes@,
                            assigned@,
                            is_least_inf,
                            next as int,
                            (bnow - 1) as nat,
                        ).0, grow_chain(
                            self.nodes@,
                            assigned@,
                            is_least_inf,
                            next as int,
                            (bnow - 1) as nat,
                        ).1));
                        assert(chain@.drop_first() =~= chain_before.drop_first().push(next as u16));
                        assert(chain_before.drop_first() + (seq![next as u16] + grow_chain(
                            self.nodes@,
                            assigned@,
                            is_least_inf,
                            next as int,
                            (bnow - 1) as nat,
                        ).0) =~= chain@.drop_first() + grow_chain(
                            self.nodes@,
                            assigned@,
                            is_least_inf,
                            next as int,
                            (bnow - 1) as nat,
                        ).0);
                    }
                    remaining = remaining - 1;
                    cur = next;
                } else {
                    proof {
                        assert(chain_next(self.nodes@, assigned@, is_least_inf, cur as int)
                            is None);
                        assert(grow_chain(self.nodes@, assigned@, is_least_inf, cur as int, bnow)
                            == (Seq::<u16>::empty(), assigned@));
                        assert(grow_chain(self.nodes@, assigned@, is_least_inf, cur as int, 0nat)
                            == (Seq::<u16>::empty(), assigned@));
                    }
                }
            }
            proof {
                // at exit the chain equals the grown spec chain exactly
                assert(grow_chain(
                    self.nodes@,
                    assigned@,
                    is_least_inf,
                    cur as int,
                    if done {
                        0nat
                    } else {
                        (cap - size) as nat
                    },
                ) == (Seq::<u16>::empty(), assigned@));
                assert(g_full.0 =~= chain@.drop_first());
                assert(g_full.1 == assigned@);
            }
            let site = BondingSite::new(chain);
            proof {
                lemma_flatten_push(groups@, site);
                assert(site.interaction_list@ =~= seq![seed as u16] + site.interaction_list@.drop_first());
                assert(site.interaction_list@ =~= seq![seed as u16] + g_full.0);
                assert(group_views(groups@.push(site)) =~= group_views(groups@) + seq![
                    site.interaction_list@,
                ]);
                assert(group_views(groups@) + seq![seq![seed as u16] + g_full.0] + build_groups(
                    self.nodes@,
                    assigned@,
                    is_least_inf,
                    cap as nat,
                    (fuel0 - 1) as nat,
                ) =~= group_views(groups@.push(site)) + build_groups(
                    self.nodes@,
                    assigned@,
                    is_least_inf,
                    cap as nat,
                    (fuel0 - 1) as nat,
                ));
            }
            groups.push(site);
        }
        proof {
            lemma_num_assigned_full(assigned@);
            assert forall|x: u16| #[trigger]
                flat.contains(x) <==> ((x as int) < n as int) by {
                if (x as int) < n as int {
                    assert(assigned@[x as int]);
                }
            }
            // nothing is left unassigned, so the greedy stops here too
            lemma_seed_scan_all_assigned(self.nodes@, assigned@, is_least_inf, n as int);
            assert(build_groups(
                self.nodes@,
                assigned@,
                is_least_inf,
                cap as nat,
                (n as int - groups@.len()) as nat,
            ) =~= Seq::<Seq<u16>>::empty());
            assert(target =~= group_views(groups@));
        }
        groups
    }

    /// The interaction groups used as bonding sites: most-influential
    /// chaining over the whole network.
    pub fn generate_bonding_sites(&mut self) -> (r: Vec<BondingSite>)
        requires
            old(self).wf(),
            old(self).influences_set(),
        ensures
            *final(self) == *old(self),
            group_views(r@) == interaction_groups_spec(
                old(self).nodes@,
                false,
                if old(self).nodes@.len() as u16 == 0 {
                    1nat
                } else {
                    old(self).nodes@.len() as u16 as nat
                },
            ),
            flatten_ids(r@).no_duplicates(),
            forall|x: u16| #[trigger]
                flatten_ids(r@).contains(x) <==> (x as int) < old(self).nodes@.len(),
    {
        let n = self.nodes.len();
        proof {
            if n >= 1 {
                assert(self.nodes@[n as int - 1].id == n as int - 1);
            }
            assert(n <= 0x10000);
        }
        self.generate_interaction_groups_inf(n as u16, false)
    }

    /// Detect the cycle and transient lengths from the given seed and then
    /// accumulate liveliness over both phases, reporting the dynamics as an
    /// unstable particle with those lengths.
    pub fn calculate_particle(&mut self, init_state: u64) -> (r: Result<Stability, RbnError>)
        requires
            old(self).wf(),
            old(self).nodes@.len() <= 64,
            small_period(old(self).wiring(), pat64(init_state)),
        ensures
            final(self).wf(),
            final(self).nodes@.len() == old(self).nodes@.len(),
            final(self).wiring() == old(self).wiring(),
            r matches Ok(st) ==> (st matches Stability::Unstable { cycle, transient } && {
                &&& is_cycle_length(old(self).wiring(), pat64(init_state), cycle as nat)
                &&& is_transient_length(
                    old(self).wiring(),
                    pat64(init_state),
                    cycle as nat,
                    transient as nat,
                )
                &&& final(self).cycle_len == Some(cycle)
                &&& final(self).trans_len == Some(transient)
                &&& final(self).states_set()
            }),
            tables_total(old(self).wiring()) ==> r is Ok,
    {
        let cl = match self.calculate_cycle_ln(init_state) {
            Ok(c) => c,
            Err(e) => {
                return Err(e);
            },
        };
        let tran = match self.calculate_transient_ln(init_state) {
            Ok(m) => m,
            Err(e) => {
                return Err(e);
            },
        };
        match self.calculate_liveliness(init_state) {
            Ok(()) => {},
            Err(e) => {
                return Err(e);
            },
        }
        Ok(Stability::Unstable { cycle: cl, transient: tran })
    }
}

/// Wholly set flag sequences count as many set positions as they are long.
proof fn lemma_num_assigned_all(s: Seq<bool>)
    requires
        forall|j: int| 0 <= j < s.len() ==> #[trigger] s[j],
    ensures
        num_assigned(s) == s.len(),
    decreases s.len(),
{
    if s.len() > 0 {
        assert forall|j: int| 0 <= j < s.drop_last().len() implies #[trigger] s.drop_last()[j] by {
            assert(s[j]);
        }
        lemma_num_assigned_all(s.drop_last());
    }
}

/// A flag sequence with no set position counts zero.
proof fn lemma_num_assigned_nonzero(s: Seq<bool>)
    requires
        forall|j: int| 0 <= j < s.len() ==> !(#[trigger] s[j]),
    ensures
        num_assigned(s) == 0,
    decreases s.len(),
{
    if s.len() > 0 {
        assert forall|j: int| 0 <= j < s.drop_last().len() implies !(#[trigger] s.drop_last()[j]) by {
            assert(!s[j]);
        }
        lemma_num_assigned_nonzero(s.drop_last());
    }
}

} // verus!
