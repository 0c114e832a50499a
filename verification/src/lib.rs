//! A Random Boolean Network (RBN) library: boolean-function nodes wired into a
//! directed graph, stepped synchronously, with cycle/transient detection,
//! per-node liveliness accumulation, and influence-driven interaction groups.

pub mod bits;
pub mod bonding;
pub mod cycle_calc;
pub mod errors;
pub mod fmt;
pub mod laws;
pub mod liveliness;
pub mod node;
pub mod orbit;
pub mod rbn;
pub mod rng;
pub mod state;

pub use bonding::{BondingSite, Stability};
pub use errors::RbnError;
pub use node::Node;
pub use rbn::RBN;
pub use state::RBNState;
