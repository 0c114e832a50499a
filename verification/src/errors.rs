use vstd::prelude::*;

verus! {

/// The ways an operation on a network or a node can fail. All of these mark
/// misuse of the API (wrong call order or malformed input), not runtime
/// faults, so callers are expected to treat them as fatal.
#[derive(Clone, Copy, Debug, PartialEq, Eq, Structural)]
pub enum RbnError {
    /// Random construction was asked for a fan-in the design does not support.
    UnsupportedFanIn,
    /// The truth-table list and the structure table differ in length.
    StructureMismatch,
    /// A truth-table lookup index was not below the table's length.
    IndexOutOfRange,
    /// The transient search was started before a cycle length was computed.
    MissingCycleLength,
    /// Liveliness was requested before cycle and transient lengths were computed.
    MissingCycleOrTransient,
    /// A node's current state was read before it was set.
    NoCurrentState,
}

} // verus!
