//! Agent roles.

use vstd::prelude::*;

verus! {

/// Agent role.
#[derive(Debug, Clone, Copy, PartialEq, Eq, Structural)]
pub enum AgentRole {
    /// Overall coordination.
    Coordinator,
    KnowledgeBase,
    /// Code generation (high causal strength).
    CodeGen,
    /// Reasoning under uncertainty.
    Reasoner,
    /// Security audit.
    Auditor,
    /// Parallel search.
    Searcher,
    /// Network / API calls.
    NetworkCaller,
    /// User interaction and feedback.
    UserInterface,
}

} // verus!
