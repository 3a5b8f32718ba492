//! The chain-sync agent: finding the intersection, then feeding the node's
//! roll-forward and roll-backward instructions through the rollback buffer.
//!
//! The agent only decides; whoever owns the channel sends its requests and
//! hands it the node's replies.
use vstd::prelude::*;
use crate::rollback::{BufferModel, ChainEvent, Point, RollbackBuffer, SyncError, step};

verus! {

#[derive(Clone, Copy, Debug, PartialEq, Eq, Structural)]
pub enum SyncPhase {
    /// Waiting for the node's answer to the offered intersection points.
    Intersecting,
    /// Requesting and applying chain updates.
    Syncing,
    /// A fatal error occurred; no further input is taken.
    Faulted,
}

pub struct ChainSyncAgent {
    phase: SyncPhase,
    buffer: RollbackBuffer,
}

impl ChainSyncAgent {
    pub closed spec fn phase_spec(&self) -> SyncPhase {
        self.phase
    }

    pub closed spec fn buffer_spec(&self) -> BufferModel {
        self.buffer@
    }

    pub closed spec fn wf(&self) -> bool {
        self.buffer.wf()
    }

    /// An agent that confirms blocks at depth `min_depth`, about to intersect.
    pub fn new(min_depth: usize) -> (r: ChainSyncAgent)
        ensures
            r.wf(),
            r.phase_spec() == SyncPhase::Intersecting,
            r.buffer_spec() == BufferModel::empty(min_depth as nat),
    {
        ChainSyncAgent { phase: SyncPhase::Intersecting, buffer: RollbackBuffer::new(min_depth) }
    }

    pub fn phase(&self) -> (r: SyncPhase)
        ensures
            r == self.phase_spec(),
    {
        self.phase
    }

    /// Takes the node's answer to the intersection request: the point found,
    /// or `None` when it knows none of the offered points, which is fatal.
    pub fn on_intersect(&mut self, found: Option<Point>) -> (r: Result<(), SyncError>)
        requires
            old(self).wf(),
            old(self).phase_spec() == SyncPhase::Intersecting,
        ensures
            final(self).wf(),
            final(self).buffer_spec() == old(self).buffer_spec(),
            found is None ==> r == Err::<(), SyncError>(SyncError::IntersectNotFound)
                && final(self).phase_spec() == SyncPhase::Faulted,
            found is Some ==> r is Ok && final(self).phase_spec() == SyncPhase::Syncing,
    {
        match found {
            None => {
                self.phase = SyncPhase::Faulted;
                Err(SyncError::IntersectNotFound)
            },
            Some(_) => {
                self.phase = SyncPhase::Syncing;
                Ok(())
            },
        }
    }

    /// Takes one chain update of the node and returns the events now safe to
    /// pass downstream. A roll-forward that does not follow the head is a
    /// protocol violation and faults the agent.
    pub fn on_update(&mut self, event: ChainEvent) -> (r: Result<Vec<ChainEvent>, SyncError>)
        requires
            old(self).wf(),
            old(self).phase_spec() == SyncPhase::Syncing,
        ensures
            final(self).wf(),
            step(old(self).buffer_spec(), event) is None ==> r == Err::<
                Vec<ChainEvent>,
                SyncError,
            >(SyncError::ProtocolViolation) && final(self).phase_spec() == SyncPhase::Faulted,
            step(old(self).buffer_spec(), event) matches Some((m, out)) ==> r is Ok
                && r->Ok_0@ == out && final(self).buffer_spec() == m && final(self).phase_spec()
                == SyncPhase::Syncing,
    {
        let r = self.buffer.apply(event);
        if r.is_err() {
            self.phase = SyncPhase::Faulted;
        }
        r
    }
}

} // verus!
