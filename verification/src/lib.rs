//! Topology normalization for an FPGA routing database: converts absolute,
//! position-encoded wire names into position-independent canonical names and
//! builds a per-tile-type routing graph annotated with neighbour relations.

use vstd::prelude::*;

pub mod digits;
pub mod edges;
pub mod grammar;
pub mod intern;
pub mod laws;
pub mod neighbour;
pub mod normalize;
pub mod text;
pub mod tiletype;

verus! {

/// A fatal database-integrity violation. A malformed or unrecognized wire
/// name means a corrupted or unsupported raw database; no silent
/// continuation is allowed, so every such condition is reported to the
/// caller, which decides whether to abort the whole build.
#[derive(Debug, Clone, PartialEq, Eq)]
pub enum WireError {
    /// A wire name failed to match any expected pattern.
    Grammar { wire: String },
    /// A TAP-tile branch wire whose column equals the tile's own column,
    /// with no left/right answer.
    AmbiguousSide { wire: String, tile: String },
}

impl WireError {
    /// The offending wire name carried by the error.
    pub open spec fn spec_wire(&self) -> Seq<char> {
        match self {
            WireError::Grammar { wire } => wire@,
            WireError::AmbiguousSide { wire, .. } => wire@,
        }
    }

    /// A diagnostic line naming the offending wire.
    pub fn describe(&self) -> (r: &str)
        ensures
            r@ == self.spec_wire(),
    {
        match self {
            WireError::Grammar { wire } => wire.as_str(),
            WireError::AmbiguousSide { wire, .. } => wire.as_str(),
        }
    }
}

} // verus!
