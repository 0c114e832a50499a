//! An atomic boolean-function unit: a truth table, a current and a staged
//! state, input wiring (as indices into the owning network), and bookkeeping
//! for influence and liveliness.

use vstd::prelude::*;

use crate::errors::RbnError;
use crate::rng::random_bool;

verus! {

/// One node of a boolean network. Inputs are stored as indices into the
/// owning network's node list, so a node may name itself as an input.
#[derive(Debug)]
pub struct Node {
    /// Truth table: entry `a` is the node's next state when its inputs form
    /// the address `a` (left input contributes 1, right input contributes 2).
    pub function_table: Vec<bool>,
    /// State at the current time step; unset until seeded.
    pub s_t: Option<bool>,
    /// Staged state for the next time step; unset right after a commit.
    pub s_nt: Option<bool>,
    /// Truth table size, kept equal to `function_table.len()`.
    pub tbl_size: usize,
    /// Signed activity tally over the transient phase.
    pub trans_liveliness: Option<i32>,
    /// Signed activity tally over the cycle phase.
    pub cycle_liveliness: Option<i32>,
    /// Identifier, unique within the owning network (equal to the node's
    /// position there).
    pub id: u16,
    /// Indices of the nodes whose current states feed this node.
    pub inputs: Vec<u16>,
    /// How many input slots across the network name this node; unset while
    /// the network is still being wired.
    pub influence: Option<u16>,
}

/// Everything about a node except its two state slots: what detection runs
/// leave untouched.
pub open spec fn same_static(a: Node, b: Node) -> bool {
    &&& a.function_table@ == b.function_table@
    &&& a.tbl_size == b.tbl_size
    &&& a.id == b.id
    &&& a.inputs@ == b.inputs@
    &&& a.influence == b.influence
    &&& a.trans_liveliness == b.trans_liveliness
    &&& a.cycle_liveliness == b.cycle_liveliness
}

/// The running tally a liveliness accumulator holds: zero until first touched.
pub open spec fn acc_or_zero(acc: Option<i32>) -> int {
    match acc {
        Some(v) => v as int,
        None => 0,
    }
}

/// One liveliness observation folded onto a tally: +1 for an active state,
/// -1 for an inactive one, pinned to the i32 range.
pub open spec fn observe(prev: int, state: bool) -> int {
    if state {
        if prev + 1 > i32::MAX as int {
            i32::MAX as int
        } else {
            prev + 1
        }
    } else {
        if prev - 1 < i32::MIN as int {
            i32::MIN as int
        } else {
            prev - 1
        }
    }
}

/// The input index `get_input_by_inf` picks for a node with two inputs whose
/// influences are `inf0` and `inf1`: the less (or more) influential input,
/// where a tie hands the first input to the "least" side.
pub open spec fn picked_input(n: Node, least: bool, inf0: u16, inf1: u16) -> u16 {
    if inf0 <= inf1 {
        if least {
            n.inputs@[0]
        } else {
            n.inputs@[1]
        }
    } else {
        if least {
            n.inputs@[1]
        } else {
            n.inputs@[0]
        }
    }
}

impl Node {
    /// A node with a uniformly random truth table of size `2^no_in`.
    /// Fan-ins of eight or more would need a table larger than the design
    /// supports, and are rejected.
    pub fn new(no_in: u8, node_id: u16) -> (r: Result<Node, RbnError>)
        ensures
            no_in >= 8 ==> r == Result::<Node, RbnError>::Err(RbnError::UnsupportedFanIn),
            no_in < 8 ==> (r matches Ok(n) && {
                &&& n.function_table@.len() == (1usize << no_in)
                &&& n.tbl_size == (1usize << no_in)
                &&& n.s_t == Some(true)
                &&& n.s_nt == Some(false)
                &&& n.trans_liveliness is None
                &&& n.cycle_liveliness is None
                &&& n.id == node_id
                &&& n.inputs@.len() == 0
                &&& n.influence is None
            }),
    {
        if no_in >= 8 {
            return Err(RbnError::UnsupportedFanIn);
        }
        let tbl_sz: usize = 1usize << no_in;
        let mut table: Vec<bool> = Vec::new();
        let mut x: usize = 0;
        while x < tbl_sz
            invariant
                x <= tbl_sz,
                table@.len() == x,
            decreases tbl_sz - x,
        {
            table.push(random_bool());
            x = x + 1;
        }
        Ok(Node {
            function_table: table,
            s_t: Some(true),
            s_nt: Some(false),
            tbl_size: tbl_sz,
            trans_liveliness: None,
            cycle_liveliness: None,
            id: node_id,
            inputs: Vec::new(),
            influence: None,
        })
    }

    /// A node with the given truth table, whose length must be a power of
    /// two.
    pub fn new_with_tbl(tbl: Vec<bool>, node_id: u16) -> (r: Node)
        requires
            vstd::arithmetic::power2::is_pow2(tbl@.len() as int),
        ensures
            r.function_table@ == tbl@,
            r.tbl_size == tbl@.len(),
            r.s_t == Some(true),
            r.s_nt == Some(true),
            r.trans_liveliness is None,
            r.cycle_liveliness is None,
            r.id == node_id,
            r.inputs@.len() == 0,
            r.influence is None,
    {
        let sz = tbl.len();
        Node {
            function_table: tbl,
            s_t: Some(true),
            s_nt: Some(true),
            tbl_size: sz,
            trans_liveliness: None,
            cycle_liveliness: None,
            id: node_id,
            inputs: Vec::new(),
            influence: None,
        }
    }

    /// Look up the table entry for the input combination `in_sum` and make it
    /// the current state.
    pub fn get_state(&mut self, in_sum: usize) -> (r: Result<bool, RbnError>)
        ensures
            in_sum < old(self).function_table@.len() ==> {
                &&& r == Result::<bool, RbnError>::Ok(old(self).function_table@[in_sum as int])
                &&& *final(self) == (Node {
                    s_t: Some(old(self).function_table@[in_sum as int]),
                    ..*old(self)
                })
            },
            in_sum >= old(self).function_table@.len() ==> {
                &&& r == Result::<bool, RbnError>::Err(RbnError::IndexOutOfRange)
                &&& *final(self) == *old(self)
            },
    {
        if in_sum >= self.function_table.len() {
            return Err(RbnError::IndexOutOfRange);
        }
        let v = self.function_table[in_sum];
        self.s_t = Some(v);
        Ok(v)
    }

    /// Look up the table entry for the input combination `in_sum` and stage
    /// it as the next state.
    pub fn calc_next_state(&mut self, in_sum: usize) -> (r: Result<bool, RbnError>)
        ensures
            in_sum < old(self).function_table@.len() ==> {
                &&& r == Result::<bool, RbnError>::Ok(old(self).function_table@[in_sum as int])
                &&& *final(self) == (Node {
                    s_nt: Some(old(self).function_table@[in_sum as int]),
                    ..*old(self)
                })
            },
            in_sum >= old(self).function_table@.len() ==> {
                &&& r == Result::<bool, RbnError>::Err(RbnError::IndexOutOfRange)
                &&& *final(self) == *old(self)
            },
    {
        if in_sum >= self.function_table.len() {
            return Err(RbnError::IndexOutOfRange);
        }
        let v = self.function_table[in_sum];
        self.s_nt = Some(v);
        Ok(v)
    }

    /// Commit the staged state as the current one and clear the staged slot.
    pub fn update_state(&mut self)
        ensures
            *final(self) == (Node { s_t: old(self).s_nt, s_nt: None, ..*old(self) }),
    {
        self.s_t = self.s_nt;
        self.s_nt = None;
    }

    /// The current state, if one has been set.
    pub fn get_current_state(&self) -> (r: Result<bool, RbnError>)
        ensures
            match self.s_t {
                Some(b) => r == Result::<bool, RbnError>::Ok(b),
                None => r == Result::<bool, RbnError>::Err(RbnError::NoCurrentState),
            },
    {
        match self.s_t {
            Some(b) => Ok(b),
            None => Err(RbnError::NoCurrentState),
        }
    }

    /// Overwrite the current state and clear any staged one.
    pub fn set_current_state(&mut self, state: bool)
        ensures
            *final(self) == (Node { s_t: Some(state), s_nt: None, ..*old(self) }),
    {
        self.s_t = Some(state);
        self.s_nt = None;
    }

    /// The node's truth table.
    pub fn get_function_table(&self) -> (r: &Vec<bool>)
        ensures
            r@ == self.function_table@,
    {
        &self.function_table
    }

    /// The node's identifier.
    pub fn get_id(&self) -> (r: u16)
        ensures
            r == self.id,
    {
        self.id
    }

    /// Clear both liveliness tallies.
    pub fn reset_liveliness(&mut self)
        ensures
            *final(self) == (Node {
                trans_liveliness: None,
                cycle_liveliness: None,
                ..*old(self)
            }),
    {
        self.trans_liveliness = None;
        self.cycle_liveliness = None;
    }

    /// Fold the current state onto the transient liveliness tally.
    pub fn update_trans_liveliness(&mut self) -> (r: Result<(), RbnError>)
        ensures
            match old(self).s_t {
                Some(state) => {
                    &&& r == Result::<(), RbnError>::Ok(())
                    &&& *final(self) == (Node {
                        trans_liveliness: Some(
                            observe(acc_or_zero(old(self).trans_liveliness), state) as i32,
                        ),
                        ..*old(self)
                    })
                },
                None => {
                    &&& r == Result::<(), RbnError>::Err(RbnError::NoCurrentState)
                    &&& *final(self) == *old(self)
                },
            },
    {
        match self.s_t {
            Some(state) => {
                let prev: i32 = match self.trans_liveliness {
                    Some(v) => v,
                    None => 0,
                };
                let next: i32 = if state {
                    if prev == i32::MAX {
                        i32::MAX
                    } else {
                        prev + 1
                    }
                } else {
                    if prev == i32::MIN {
                        i32::MIN
                    } else {
                        prev - 1
                    }
                };
                self.trans_liveliness = Some(next);
                Ok(())
            },
            None => Err(RbnError::NoCurrentState),
        }
    }

    /// Clear the cycle liveliness tally.
    pub fn reset_cycle_liveliness(&mut self)
        ensures
            *final(self) == (Node { cycle_liveliness: None, ..*old(self) }),
    {
        self.cycle_liveliness = None;
    }

    /// Fold the current state onto the cycle liveliness tally.
    pub fn update_cycle_liveliness(&mut self) -> (r: Result<(), RbnError>)
        ensures
            match old(self).s_t {
                Some(state) => {
                    &&& r == Result::<(), RbnError>::Ok(())
                    &&& *final(self) == (Node {
                        cycle_liveliness: Some(
                            observe(acc_or_zero(old(self).cycle_liveliness), state) as i32,
                        ),
                        ..*old(self)
                    })
                },
                None => {
                    &&& r == Result::<(), RbnError>::Err(RbnError::NoCurrentState)
                    &&& *final(self) == *old(self)
                },
            },
    {
        match self.s_t {
            Some(state) => {
                let prev: i32 = match self.cycle_liveliness {
                    Some(v) => v,
                    None => 0,
                };
                let next: i32 = if state {
                    if prev == i32::MAX {
                        i32::MAX
                    } else {
                        prev + 1
                    }
                } else {
                    if prev == i32::MIN {
                        i32::MIN
                    } else {
                        prev - 1
                    }
                };
                self.cycle_liveliness = Some(next);
                Ok(())
            },
            None => Err(RbnError::NoCurrentState),
        }
    }

    /// The cycle liveliness tally; meaningful only after a liveliness run.
    pub fn get_cycle_liveliness(&self) -> (r: i32)
        requires
            self.cycle_liveliness is Some,
        ensures
            r == self.cycle_liveliness->0,
    {
        match self.cycle_liveliness {
            Some(v) => v,
            None => unreached(),
        }
    }

    /// The transient liveliness tally; meaningful only after a liveliness run.
    pub fn get_trans_liveliness(&self) -> (r: i32)
        requires
            self.trans_liveliness is Some,
        ensures
            r == self.trans_liveliness->0,
    {
        match self.trans_liveliness {
            Some(v) => v,
            None => unreached(),
        }
    }

    /// How many input slots name this node, if wiring has finished.
    pub fn get_influence(&self) -> (r: Option<u16>)
        ensures
            r == self.influence,
    {
        self.influence
    }

    /// Of this node's two inputs, the index of the least (or most)
    /// influential one, given the influences `inf0` and `inf1` of the first
    /// and second input. `None` when the node has fewer than two inputs.
    pub fn get_input_by_inf(&self, least: bool, inf0: u16, inf1: u16) -> (r: Option<u16>)
        ensures
            self.inputs@.len() < 2 ==> r is None,
            self.inputs@.len() >= 2 ==> r == Some(picked_input(*self, least, inf0, inf1)),
    {
        if self.inputs.len() < 2 {
            return None;
        }
        if inf0 <= inf1 {
            if least {
                Some(self.inputs[0])
            } else {
                Some(self.inputs[1])
            }
        } else {
            if least {
                Some(self.inputs[1])
            } else {
                Some(self.inputs[0])
            }
        }
    }

    /// Mark wiring as finished: a node never named as an input settles at
    /// influence zero.
    pub fn structure_set(&mut self)
        ensures
            *final(self) == (Node {
                influence: Some(
                    match old(self).influence {
                        Some(x) => x,
                        None => 0u16,
                    },
                ),
                ..*old(self)
            }),
    {
        match self.influence {
            Some(x) => self.influence = Some(x),
            None => self.influence = Some(0),
        }
    }

    /// Count one more input slot naming this node.
    pub fn inc_influence(&mut self)
        requires
            old(self).influence matches Some(x) ==> x < u16::MAX,
        ensures
            *final(self) == (Node {
                influence: Some(
                    match old(self).influence {
                        Some(x) => (x + 1) as u16,
                        None => 1u16,
                    },
                ),
                ..*old(self)
            }),
    {
        match self.influence {
            Some(x) => self.influence = Some(x + 1),
            None => self.influence = Some(1),
        }
    }
}

} // verus!
