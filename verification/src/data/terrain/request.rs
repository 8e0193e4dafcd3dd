//! A pollable request for one patch.
//!
//! A request is issued for a handle and polled until it is resolved or has
//! failed. Each poll has two halves with the caller's work between them:
//! [`PatchRequest::begin_poll`] tells whether there is anything to do; if so
//! the caller drains the network queues into the storage and looks the patch
//! up, and [`PatchRequest::finish_poll`] takes the result. A request holds no
//! resources: to abandon it, stop polling.

use vstd::prelude::*;
use crate::data::ids::RegionId;
use crate::data::terrain::codec::patch_bytes;
use crate::data::terrain::storage::{fetch, lemma_store_then_fetch, StorageModel};
use crate::data::terrain::{PatchHandle, PatchModel, PatchPosition, StorageError, TerrainPatch};

verus! {

/// The state of a request.
pub enum RequestState {
    /// Created, never polled.
    Issued,
    /// A poll has begun: the caller is draining and looking the patch up.
    Draining,
    /// The last poll did not find the patch; it may arrive later.
    Pending,
    /// The patch was found. Final.
    Resolved(TerrainPatch),
    /// Draining or the lookup failed. Final.
    Failed(StorageError),
}

/// The state of a request, in terms of the model.
pub enum RequestPhase {
    Issued,
    Draining,
    Pending,
    Resolved(PatchModel),
    Failed(StorageError),
}

impl View for RequestState {
    type V = RequestPhase;

    open spec fn view(&self) -> RequestPhase {
        match *self {
            RequestState::Issued => RequestPhase::Issued,
            RequestState::Draining => RequestPhase::Draining,
            RequestState::Pending => RequestPhase::Pending,
            RequestState::Resolved(patch) => RequestPhase::Resolved(patch@),
            RequestState::Failed(e) => RequestPhase::Failed(e),
        }
    }
}

impl RequestPhase {
    /// A request in a final state is never polled again.
    pub open spec fn is_final(self) -> bool {
        self is Resolved || self is Failed
    }

    /// The state after a poll begins.
    pub open spec fn begun(self) -> RequestPhase {
        if self.is_final() {
            self
        } else {
            RequestPhase::Draining
        }
    }

    /// The state after a poll ends with `outcome`, the result of draining and
    /// looking the patch up. Only a poll that has begun can end.
    pub open spec fn finished(self, outcome: Result<PatchModel, StorageError>) -> RequestPhase {
        if self is Draining {
            match outcome {
                Ok(patch) => RequestPhase::Resolved(patch),
                Err(StorageError::NotFound) => RequestPhase::Pending,
                Err(e) => RequestPhase::Failed(e),
            }
        } else {
            self
        }
    }

    /// The state after one whole poll.
    pub open spec fn polled(self, outcome: Result<PatchModel, StorageError>) -> RequestPhase {
        self.begun().finished(outcome)
    }
}

/// The result of a lookup as the model sees it.
pub open spec fn outcome_model(outcome: Result<TerrainPatch, StorageError>) -> Result<
    PatchModel,
    StorageError,
> {
    match outcome {
        Ok(patch) => Ok(patch@),
        Err(e) => Err(e),
    }
}

/// A request for the patch at one handle.
pub struct PatchRequest {
    handle: PatchHandle,
    state: RequestState,
}

impl PatchRequest {
    /// The handle that the request asks for.
    pub closed spec fn target(&self) -> PatchHandle {
        self.handle
    }

    /// The state of the request.
    pub closed spec fn phase(&self) -> RequestPhase {
        self.state@
    }

    /// A new request for the patch at `position` in `region`.
    pub fn new(region: RegionId, position: PatchPosition) -> (request: PatchRequest)
        ensures
            request.target() == (region, position),
            request.phase() == RequestPhase::Issued,
    {
        PatchRequest { handle: (region, position), state: RequestState::Issued }
    }

    /// The handle that the request asks for.
    pub fn handle(&self) -> (handle: PatchHandle)
        ensures
            handle == self.target(),
    {
        self.handle
    }

    /// The state of the request.
    pub fn state(&self) -> (state: &RequestState)
        ensures
            state@ == self.phase(),
    {
        &self.state
    }

    /// Whether the request is resolved or has failed.
    pub fn is_final(&self) -> (done: bool)
        ensures
            done == self.phase().is_final(),
    {
        match self.state {
            RequestState::Resolved(_) => true,
            RequestState::Failed(_) => true,
            _ => false,
        }
    }

    /// Begins a poll. Returns whether the caller has work to do: a request in
    /// a final state stays as it is and asks for none.
    pub fn begin_poll(&mut self) -> (work: bool)
        ensures
            final(self).target() == old(self).target(),
            final(self).phase() == old(self).phase().begun(),
            work == !old(self).phase().is_final(),
    {
        if self.is_final() {
            false
        } else {
            self.state = RequestState::Draining;
            true
        }
    }

    /// Ends a poll with the result of draining and looking the patch up: the
    /// patch resolves the request, `NotFound` leaves it pending, any other
    /// error fails it. Without a poll under way nothing changes.
    pub fn finish_poll(&mut self, outcome: Result<TerrainPatch, StorageError>)
        ensures
            final(self).target() == old(self).target(),
            final(self).phase() == old(self).phase().finished(outcome_model(outcome)),
    {
        match self.state {
            RequestState::Draining => {
                self.state = match outcome {
                    Ok(patch) => RequestState::Resolved(patch),
                    Err(StorageError::NotFound) => RequestState::Pending,
                    Err(e) => RequestState::Failed(e),
                };
            },
            _ => {},
        }
    }

    /// The patch, once the request is resolved.
    pub fn patch(&self) -> (patch: Option<&TerrainPatch>)
        ensures
            match self.phase() {
                RequestPhase::Resolved(m) => patch matches Some(p) && p@ == m,
                _ => patch is None,
            },
    {
        match &self.state {
            RequestState::Resolved(patch) => Some(patch),
            _ => None,
        }
    }
}

/// A request that has not reached a final state is resolved by the first
/// poll that finds the patch: it need not be issued again, however many
/// polls found nothing before.
pub proof fn lemma_poll_resolves(phase: RequestPhase, patch: PatchModel)
    requires
        !phase.is_final(),
    ensures
        phase.polled(Ok(patch)) == RequestPhase::Resolved(patch),
{
}

/// A poll that finds nothing leaves the request pending and open to further
/// polls.
pub proof fn lemma_poll_keeps_pending(phase: RequestPhase)
    requires
        !phase.is_final(),
    ensures
        phase.polled(Err(StorageError::NotFound)) == RequestPhase::Pending,
        !phase.polled(Err(StorageError::NotFound)).is_final(),
{
}

/// A final state is final: no poll changes it.
pub proof fn lemma_final_is_final(phase: RequestPhase, outcome: Result<PatchModel, StorageError>)
    requires
        phase.is_final(),
    ensures
        phase.polled(outcome) == phase,
{
}

/// Liveness. Once a patch has been stored under the handle of a request that
/// is not in a final state, the next poll resolves the request, provided the
/// patch's file, if it has to be read, gives what was written. One poll is
/// enough, and the request need not be issued again.
pub proof fn lemma_request_resolves_after_store(
    phase: RequestPhase,
    s: StorageModel,
    handle: PatchHandle,
    patch: PatchModel,
    size_bytes: u64,
    in_range: bool,
)
    requires
        !phase.is_final(),
        s.disk.wf(),
        s.disk.next_file_id < u64::MAX,
        patch.wf(),
        patch.size <= u64::MAX,
    ensures
        phase.polled(
            fetch(s.store(handle, patch, size_bytes, in_range), handle, Ok(patch_bytes(patch))),
        ) is Resolved,
        in_range || !s.hot.contains_key(handle) ==> phase.polled(
            fetch(s.store(handle, patch, size_bytes, in_range), handle, Ok(patch_bytes(patch))),
        ) == RequestPhase::Resolved(patch),
{
    lemma_store_then_fetch(s, handle, patch, size_bytes, in_range);
}

} // verus!
