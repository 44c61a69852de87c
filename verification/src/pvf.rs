//! Pending execution requests of the validation host.
//!
//! While an artifact is being prepared, execution requests for it are
//! parked and handed out in arrival order once preparation finishes.
//! The request payloads themselves (candidate data, result channels)
//! stay with the embedding; a ticket identifies each request.

use vstd::prelude::*;

use crate::keymap::VecMap;

verus! {

/// An execution request waiting for its artifact, identified by a
/// ticket the embedding resolves to the full request.
#[derive(Clone, Copy, Debug, PartialEq, Eq, Structural)]
pub struct PendingExecutionRequest {
    /// The embedding's handle for the parked request.
    pub ticket: u64,
}

/// A mapping from an artifact in preparation to the list of pending
/// execution requests to run once its preparation is finished.
pub struct AwaitingPrepare {
    map: VecMap<Vec<PendingExecutionRequest>>,
}

impl AwaitingPrepare {
    /// Well-formed: sorted by artifact id.
    pub closed spec fn wf(&self) -> bool {
        self.map.wf()
    }

    /// The requests parked for an artifact, in arrival order.
    pub closed spec fn spec_pending(&self, artifact_id: u64) -> Seq<PendingExecutionRequest> {
        match self.map.spec_get(artifact_id as u128) {
            Some(list) => list@,
            None => Seq::empty(),
        }
    }

    /// No requests parked.
    pub fn new() -> (r: Self)
        ensures
            r.wf(),
            forall|a: u64| r.spec_pending(a) == Seq::<PendingExecutionRequest>::empty(),
    {
        AwaitingPrepare { map: VecMap::new() }
    }

    /// Park an execution request for an artifact.
    pub fn add(&mut self, artifact_id: u64, pending_execution_request: PendingExecutionRequest)
        requires
            old(self).wf(),
        ensures
            final(self).wf(),
            final(self).spec_pending(artifact_id) == old(self).spec_pending(artifact_id).push(
                pending_execution_request,
            ),
            forall|a: u64|
                a != artifact_id ==> final(self).spec_pending(a) == old(self).spec_pending(a),
    {
        let mut list: Vec<PendingExecutionRequest> = match self.map.remove(artifact_id as u128) {
            Some(list) => list,
            None => Vec::new(),
        };
        list.push(pending_execution_request);
        self.map.insert(artifact_id as u128, list);
    }

    /// Take all requests parked for an artifact, in arrival order.
    pub fn take(&mut self, artifact_id: u64) -> (r: Vec<PendingExecutionRequest>)
        requires
            old(self).wf(),
        ensures
            final(self).wf(),
            r@ == old(self).spec_pending(artifact_id),
            final(self).spec_pending(artifact_id) == Seq::<PendingExecutionRequest>::empty(),
            forall|a: u64|
                a != artifact_id ==> final(self).spec_pending(a) == old(self).spec_pending(a),
    {
        match self.map.remove(artifact_id as u128) {
            Some(list) => list,
            None => Vec::new(),
        }
    }
}

} // verus!
