//! The toplevel runtime interface: the thin driving loop that brings the
//! ontology together.
//!
//! A runtime repeatedly hands each agent and the synchronizer a viewpoint
//! and polls them; it is external to the verified core, which only defines
//! the shape of what it must supply and consume.

use vstd::prelude::*;

use crate::actors::{Agent, Synchronizer};

verus! {

/// A runtime driving a set of agents and one synchronizer.
pub trait Runtime {
    /// Any errors thrown by the runtime; always fatal to the run.
    type Error;

    /// Runs the runtime for the given agents, with the synchronizer able
    /// to influence the synchronized stores and to end the run.
    fn run<A: Agent, S: Synchronizer>(
        &mut self,
        agents: &mut Vec<A>,
        synchronizer: &mut S,
    ) -> Result<(), Self::Error>;
}

} // verus!
