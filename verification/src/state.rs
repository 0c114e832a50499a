//! A snapshot of every node's boolean state at one time step.

use vstd::prelude::*;

use crate::bits::{get_bit_u16, get_bit_u32, get_bit_u64, u16_bit, u32_bit, u64_bit};

verus! {

/// A fixed-length vector of node states, index-aligned with a network's node
/// order. Two snapshots are equal exactly when every position matches.
#[derive(Debug)]
pub struct RBNState {
    pub pattern: Vec<bool>,
}

impl RBNState {
    /// A 16-position snapshot seeded from the bits of `num`, least
    /// significant bit first.
    pub fn from_u16(num: u16) -> (r: RBNState)
        ensures
            r.pattern@.len() == 16,
            forall|i: int| 0 <= i < 16 ==> r.pattern@[i] == u16_bit(num, i),
    {
        let mut pat: Vec<bool> = Vec::new();
        let mut idx: usize = 0;
        while idx < 16
            invariant
                idx <= 16,
                pat@.len() == idx,
                forall|i: int| 0 <= i < idx ==> pat@[i] == u16_bit(num, i),
            decreases 16 - idx,
        {
            pat.push(get_bit_u16(num, idx));
            idx = idx + 1;
        }
        RBNState { pattern: pat }
    }

    /// A 32-position snapshot seeded from the bits of `num`, least
    /// significant bit first.
    pub fn from_u32(num: u32) -> (r: RBNState)
        ensures
            r.pattern@.len() == 32,
            forall|i: int| 0 <= i < 32 ==> r.pattern@[i] == u32_bit(num, i),
    {
        let mut pat: Vec<bool> = Vec::new();
        let mut idx: usize = 0;
        while idx < 32
            invariant
                idx <= 32,
                pat@.len() == idx,
                forall|i: int| 0 <= i < idx ==> pat@[i] == u32_bit(num, i),
            decreases 32 - idx,
        {
            pat.push(get_bit_u32(num, idx));
            idx = idx + 1;
        }
        RBNState { pattern: pat }
    }

    /// A 64-position snapshot seeded from the bits of `num`, least
    /// significant bit first.
    pub fn from_u64(num: u64) -> (r: RBNState)
        ensures
            r.pattern@.len() == 64,
            forall|i: int| 0 <= i < 64 ==> r.pattern@[i] == u64_bit(num, i),
    {
        let mut pat: Vec<bool> = Vec::new();
        let mut idx: usize = 0;
        while idx < 64
            invariant
                idx <= 64,
                pat@.len() == idx,
                forall|i: int| 0 <= i < idx ==> pat@[i] == u64_bit(num, i),
            decreases 64 - idx,
        {
            pat.push(get_bit_u64(num, idx));
            idx = idx + 1;
        }
        RBNState { pattern: pat }
    }

    /// The state at position `idx`.
    pub fn get(&self, idx: usize) -> (r: bool)
        requires
            idx < self.pattern@.len(),
        ensures
            r == self.pattern@[idx as int],
    {
        self.pattern[idx]
    }

    /// The number of positions in the snapshot.
    pub fn len(&self) -> (r: usize)
        ensures
            r == self.pattern@.len(),
    {
        self.pattern.len()
    }
}

impl PartialEq for RBNState {
    fn eq(&self, other: &RBNState) -> (r: bool) {
        if self.pattern.len() != other.pattern.len() {
            return false;
        }
        let n = self.pattern.len();
        let mut idx: usize = 0;
        while idx < n
            invariant
                idx <= n,
                n == self.pattern@.len(),
                n == other.pattern@.len(),
                forall|i: int| 0 <= i < idx ==> self.pattern@[i] == other.pattern@[i],
            decreases n - idx,
        {
            if self.pattern[idx] != other.pattern[idx] {
                return false;
            }
            idx = idx + 1;
        }
        proof {
            assert(self.pattern@ =~= other.pattern@);
        }
        true
    }
}

impl vstd::std_specs::cmp::PartialEqSpecImpl for RBNState {
    open spec fn obeys_eq_spec() -> bool {
        true
    }

    open spec fn eq_spec(&self, other: &RBNState) -> bool {
        self.pattern@ == other.pattern@
    }
}

} // verus!
