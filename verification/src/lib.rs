//! A declarative dependency-graph engine.
//!
//! A graph is built from four kinds of nodes: inputs (stored, mutable
//! values), derived nodes (memoized values recomputed from their
//! parameters), ephemeral nodes (values supplied fresh on each call, never
//! stored), and observers (side-effecting sinks). Declaration order is the
//! topological order: a node may only reference nodes declared before it,
//! so cycles are structurally impossible.
//!
//! Update groups name sets of inputs that change together; compiling a
//! group derives the minimal, correctly ordered recomputation and
//! notification sequence for that set of roots.

use vstd::prelude::*;

pub mod closure;
pub mod graph;
pub mod group;
pub mod instance;
pub mod laws;
pub mod node;
pub mod registry;
pub mod surface;

verus! {

/// The construction-time failures. Once a graph compiles, no error can
/// arise from a well-typed update call.
#[derive(Clone, Copy, Debug, PartialEq, Eq, Structural)]
pub enum GraphError {
    /// A parameter list names an identifier that was never declared.
    UnknownReference,
    /// A node name was reused.
    DuplicateName,
    /// An observer was named as someone else's parameter.
    InvalidDependency,
    /// An update group names a node that is not an input.
    InvalidUpdateGroupMember,
    /// An update group names zero nodes.
    EmptyUpdateGroup,
    /// Two update groups resolve to the same derived operation name.
    DuplicateUpdateGroup,
}

} // verus!
