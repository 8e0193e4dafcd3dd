//! Moving terrain patches from the network into the viewer.
//!
//! The network layer decodes patches and sends them in batches over one
//! bounded channel per region. The [`RegionManager`] keeps the receiving ends
//! and drains them without ever blocking: each pass takes at most one batch
//! from every region, turns the raw patches into [`TerrainPatch`]es, and
//! forgets the regions whose channel is closed. Storing the drained patches
//! is the caller's next step.

use crossbeam_channel::{Receiver, TryRecvError};
use vstd::prelude::*;
use crate::data::ids::RegionId;
use crate::data::terrain::{PatchModel, PatchPosition, TerrainPatch};

verus! {

/// A patch as the network layer decoded it.
#[derive(Debug)]
pub struct RawPatch {
    /// Column of the patch on the region's grid, in the wire format's width.
    pub grid_x: u32,
    /// Row of the patch on the region's grid.
    pub grid_y: u32,
    /// Number of rows of the height matrix.
    pub rows: usize,
    /// Number of columns of the height matrix.
    pub cols: usize,
    /// The heights as bit patterns of 32-bit floats, row by row.
    pub heights: Vec<u32>,
}

/// What a non-blocking receive on a region's channel gave.
#[derive(Debug)]
pub enum ReceiveOutcome {
    /// A batch of patches was waiting.
    Batch(Vec<RawPatch>),
    /// Nothing is waiting.
    Empty,
    /// Nothing is waiting and the sending side is gone.
    Disconnected,
}

/// The receiving end of a channel of `crossbeam_channel`. Its content is not
/// visible to the verifier.
#[verifier::external_type_specification]
#[verifier::external_body]
#[verifier::reject_recursive_types(T)]
pub struct ExReceiver<T>(Receiver<T>);

/// Calls `crossbeam_channel::Receiver::try_recv`, which never blocks, and
/// names its three results. What is received depends on the senders, so
/// nothing is claimed about it.
#[verifier::external_body]
fn try_receive(channel: &Receiver<Vec<RawPatch>>) -> (outcome: ReceiveOutcome) {
    match channel.try_recv() {
        Ok(batch) => ReceiveOutcome::Batch(batch),
        Err(TryRecvError::Empty) => ReceiveOutcome::Empty,
        Err(TryRecvError::Disconnected) => ReceiveOutcome::Disconnected,
    }
}

/// The patch that a raw patch of `region` stands for. The height matrix must
/// be square and complete. The grid position is reduced to the 256 x 256 grid
/// of patch positions.
pub open spec fn converted(region: RegionId, raw: RawPatch) -> Option<PatchModel> {
    if raw.rows == raw.cols && raw.heights@.len() == raw.rows * raw.cols {
        Some(
            PatchModel {
                region,
                size: raw.rows as nat,
                position: PatchPosition {
                    x: (raw.grid_x % 256) as u8,
                    y: (raw.grid_y % 256) as u8,
                },
                heights: raw.heights@,
            },
        )
    } else {
        None
    }
}

/// Turns a raw patch of `region` into a terrain patch. A raw patch whose
/// height matrix is not square, or whose heights do not fill it, is handed
/// back unchanged.
pub fn convert_patch(region: RegionId, raw: RawPatch) -> (patch: Result<TerrainPatch, RawPatch>)
    ensures
        match converted(region, raw) {
            Some(m) => patch matches Ok(p) && p@ == m,
            None => patch == Err::<TerrainPatch, RawPatch>(raw),
        },
{
    let samples = raw.heights.len();
    if raw.rows != raw.cols {
        return Err(raw);
    }
    match raw.rows.checked_mul(raw.cols) {
        Some(cells) => {
            if samples != cells {
                return Err(raw);
            }
        },
        None => {
            return Err(raw);
        },
    }
    let position = PatchPosition { x: (raw.grid_x % 256) as u8, y: (raw.grid_y % 256) as u8 };
    Ok(TerrainPatch::from_square(region, raw.rows, position, raw.heights))
}

/// What one pass over the channels brought in.
#[derive(Debug)]
pub struct DrainReport {
    /// The patches that arrived, in the order of the regions and, within a
    /// batch, in the order of the batch.
    pub patches: Vec<TerrainPatch>,
    /// The raw patches that are no valid patch.
    pub rejected: Vec<RawPatch>,
    /// The regions whose channel was found closed; they are no longer
    /// registered.
    pub disconnected: Vec<RegionId>,
}

/// The mathematical content of a [`DrainReport`].
pub struct ReportModel {
    pub patches: Seq<PatchModel>,
    pub rejected: Seq<RawPatch>,
    pub disconnected: Seq<RegionId>,
}

impl View for DrainReport {
    type V = ReportModel;

    open spec fn view(&self) -> ReportModel {
        ReportModel {
            patches: self.patches@.map_values(|p: TerrainPatch| p@),
            rejected: self.rejected@,
            disconnected: self.disconnected@,
        }
    }
}

impl ReportModel {
    /// A report of nothing.
    pub open spec fn empty() -> ReportModel {
        ReportModel { patches: Seq::empty(), rejected: Seq::empty(), disconnected: Seq::empty() }
    }

    /// The report with one raw patch of `region` added: converted, or
    /// rejected.
    pub open spec fn with_raw(self, region: RegionId, raw: RawPatch) -> ReportModel {
        match converted(region, raw) {
            Some(patch) => ReportModel { patches: self.patches.push(patch), ..self },
            None => ReportModel { rejected: self.rejected.push(raw), ..self },
        }
    }

    /// The report with the raw patches of a batch added in order.
    pub open spec fn with_batch(self, region: RegionId, batch: Seq<RawPatch>) -> ReportModel
        decreases batch.len(),
    {
        if batch.len() == 0 {
            self
        } else {
            self.with_batch(region, batch.drop_last()).with_raw(region, batch.last())
        }
    }

    /// The report with what one receive on the channel of `region` gave.
    pub open spec fn with_outcome(self, region: RegionId, outcome: ReceiveOutcome) -> ReportModel {
        match outcome {
            ReceiveOutcome::Batch(batch) => self.with_batch(region, batch@),
            ReceiveOutcome::Empty => self,
            ReceiveOutcome::Disconnected => ReportModel {
                disconnected: self.disconnected.push(region),
                ..self
            },
        }
    }
}

/// The report of a pass in which the channel of `regions[i]` gave
/// `outcomes[i]`.
pub open spec fn drained(regions: Seq<RegionId>, outcomes: Seq<ReceiveOutcome>) -> ReportModel
    decreases regions.len(),
{
    if regions.len() == 0 || outcomes.len() == 0 {
        ReportModel::empty()
    } else {
        drained(regions.drop_last(), outcomes.drop_last()).with_outcome(
            regions.last(),
            outcomes.last(),
        )
    }
}

/// The regions that stay registered after such a pass: those whose channel
/// was not found closed, in their order.
pub open spec fn surviving(regions: Seq<RegionId>, outcomes: Seq<ReceiveOutcome>) -> Seq<RegionId>
    decreases regions.len(),
{
    if regions.len() == 0 || outcomes.len() == 0 {
        Seq::empty()
    } else {
        let rest = surviving(regions.drop_last(), outcomes.drop_last());
        if outcomes.last() is Disconnected {
            rest
        } else {
            rest.push(regions.last())
        }
    }
}

/// Adding to a report keeps the patches it has, in their places.
pub proof fn lemma_with_batch_extends(report: ReportModel, region: RegionId, batch: Seq<RawPatch>)
    ensures
        report.patches.len() <= report.with_batch(region, batch).patches.len(),
        report.with_batch(region, batch).patches.take(report.patches.len() as int)
            == report.patches,
    decreases batch.len(),
{
    if batch.len() == 0 {
        assert(report.patches.take(report.patches.len() as int) =~= report.patches);
    } else {
        let before = report.with_batch(region, batch.drop_last());
        lemma_with_batch_extends(report, region, batch.drop_last());
        let after = before.with_raw(region, batch.last());
        assert(after.patches.take(report.patches.len() as int) =~= before.patches.take(
            report.patches.len() as int,
        ));
    }
}

/// Nothing valid is lost on the way in: every raw patch of a batch that
/// stands for a patch has that patch in the report.
pub proof fn lemma_batch_is_reported(
    report: ReportModel,
    region: RegionId,
    batch: Seq<RawPatch>,
    i: int,
)
    requires
        0 <= i < batch.len(),
        converted(region, batch[i]) is Some,
    ensures
        report.with_batch(region, batch).patches.contains(converted(region, batch[i]).unwrap()),
    decreases batch.len(),
{
    let patch = converted(region, batch[i]).unwrap();
    let before = report.with_batch(region, batch.drop_last());
    let after = report.with_batch(region, batch);
    if i == batch.len() - 1 {
        assert(after.patches[before.patches.len() as int] == patch);
    } else {
        lemma_batch_is_reported(report, region, batch.drop_last(), i);
        let at = choose|at: int| 0 <= at < before.patches.len() && before.patches[at] == patch;
        assert(after.patches[at] == patch);
    }
}

/// A pass loses nothing valid either: every raw patch that stands for a
/// patch, in whatever batch a region's channel gave, has that patch in the
/// report of the pass.
pub proof fn lemma_pass_reports_batches(
    regions: Seq<RegionId>,
    outcomes: Seq<ReceiveOutcome>,
    region_at: int,
    patch_at: int,
)
    requires
        regions.len() == outcomes.len(),
        0 <= region_at < regions.len(),
        outcomes[region_at] matches ReceiveOutcome::Batch(batch) && 0 <= patch_at < batch@.len()
            && converted(regions[region_at], batch@[patch_at]) is Some,
    ensures
        outcomes[region_at] matches ReceiveOutcome::Batch(batch) && drained(
            regions,
            outcomes,
        ).patches.contains(converted(regions[region_at], batch@[patch_at]).unwrap()),
    decreases regions.len(),
{
    let batch = outcomes[region_at]->Batch_0;
    let patch = converted(regions[region_at], batch@[patch_at]).unwrap();
    let before = drained(regions.drop_last(), outcomes.drop_last());
    let after = drained(regions, outcomes);
    if region_at == regions.len() - 1 {
        lemma_batch_is_reported(before, regions.last(), batch@, patch_at);
    } else {
        lemma_pass_reports_batches(
            regions.drop_last(),
            outcomes.drop_last(),
            region_at,
            patch_at,
        );
        let at = choose|at: int| 0 <= at < before.patches.len() && before.patches[at] == patch;
        match outcomes.last() {
            ReceiveOutcome::Batch(last) => {
                lemma_with_batch_extends(before, regions.last(), last@);
                assert(after.patches.take(before.patches.len() as int)[at] == patch);
            },
            _ => {},
        }
        assert(after.patches[at] == patch);
    }
}

/// Whether every receive of a pass found its channel empty.
pub open spec fn all_empty(outcomes: Seq<ReceiveOutcome>) -> bool {
    forall|i: int| 0 <= i < outcomes.len() ==> (#[trigger] outcomes[i]) is Empty
}

/// Draining is safe to repeat: a pass that finds every channel empty reports
/// nothing and leaves every region registered.
pub proof fn lemma_idle_pass_changes_nothing(regions: Seq<RegionId>, outcomes: Seq<ReceiveOutcome>)
    requires
        regions.len() == outcomes.len(),
        all_empty(outcomes),
    ensures
        drained(regions, outcomes) == ReportModel::empty(),
        surviving(regions, outcomes) == regions,
    decreases regions.len(),
{
    if regions.len() > 0 {
        let front = outcomes.drop_last();
        assert forall|i: int| 0 <= i < front.len() implies (#[trigger] front[i]) is Empty by {
            assert(front[i] == outcomes[i]);
        }
        lemma_idle_pass_changes_nothing(regions.drop_last(), front);
        assert(outcomes.last() == outcomes[outcomes.len() - 1]);
        assert(regions.drop_last().push(regions.last()) =~= regions);
    } else {
        assert(regions =~= Seq::<RegionId>::empty());
    }
}

impl DrainReport {
    /// A report of nothing.
    pub fn new() -> (report: DrainReport)
        ensures
            report@ == ReportModel::empty(),
    {
        let report = DrainReport {
            patches: Vec::new(),
            rejected: Vec::new(),
            disconnected: Vec::new(),
        };
        assert(report@.patches =~= Seq::<PatchModel>::empty());
        report
    }
}

/// Enters into `report` what a receive on the channel of `region` gave, and
/// tells whether the region stays registered: it does unless its channel is
/// closed.
pub fn absorb(region: RegionId, outcome: ReceiveOutcome, report: &mut DrainReport) -> (keep: bool)
    ensures
        final(report)@ == old(report)@.with_outcome(region, outcome),
        keep == !(outcome is Disconnected),
{
    match outcome {
        ReceiveOutcome::Batch(batch) => {
            let ghost all = batch@;
            let ghost start = report@;
            let mut batch = batch;
            let mut rest: Vec<RawPatch> = Vec::new();
            // Take the patches from the back and restore their order after.
            while batch.len() > 0
                invariant
                    batch@.len() + rest@.len() == all.len(),
                    forall|i: int| 0 <= i < batch@.len() ==> batch@[i] == all[i],
                    forall|i: int|
                        0 <= i < rest@.len() ==> rest@[i] == all[all.len() - 1 - i],
                decreases batch@.len(),
            {
                match batch.pop() {
                    Some(raw) => {
                        rest.push(raw);
                    },
                    None => {},
                }
            }
            let ghost mut done: int = 0;
            assert(all.take(0) =~= Seq::<RawPatch>::empty());
            while rest.len() > 0
                invariant
                    0 <= done <= all.len(),
                    rest@.len() == all.len() - done,
                    forall|i: int|
                        0 <= i < rest@.len() ==> rest@[i] == all[all.len() - 1 - i],
                    report@ == start.with_batch(region, all.take(done)),
                decreases rest@.len(),
            {
                match rest.pop() {
                    Some(raw) => {
                        proof {
                            assert(raw == all[done]);
                            assert(all.take(done + 1).drop_last() =~= all.take(done));
                            assert(all.take(done + 1).last() == raw);
                        }
                        let ghost previous = report@;
                        match convert_patch(region, raw) {
                            Ok(patch) => {
                                report.patches.push(patch);
                                assert(report@.patches =~= previous.patches.push(patch@));
                            },
                            Err(raw) => {
                                report.rejected.push(raw);
                            },
                        }
                        proof {
                            done = done + 1;
                        }
                    },
                    None => {},
                }
            }
            assert(all.take(done) =~= all);
            true
        },
        ReceiveOutcome::Empty => true,
        ReceiveOutcome::Disconnected => {
            report.disconnected.push(region);
            false
        },
    }
}

/// The receiving end of the patch channel of one region.
pub struct RegionReceiver {
    region: RegionId,
    channel: Receiver<Vec<RawPatch>>,
}

/// Manages the interaction between viewer and regions: it keeps the
/// receiving ends of the regions' patch channels and drains them.
pub struct RegionManager {
    terrain_receivers: Vec<RegionReceiver>,
}

impl RegionManager {
    /// The registered regions, in the order of their registration.
    pub closed spec fn regions(&self) -> Seq<RegionId> {
        self.terrain_receivers@.map_values(|r: RegionReceiver| r.region)
    }

    /// A manager with no region registered.
    pub fn start() -> (manager: RegionManager)
        ensures
            manager.regions() == Seq::<RegionId>::empty(),
    {
        let manager = RegionManager { terrain_receivers: Vec::new() };
        assert(manager.regions() =~= Seq::<RegionId>::empty());
        manager
    }

    /// Registers the patch channel of a region that has been connected.
    pub fn setup_sim(&mut self, region_id: RegionId, receiver: Receiver<Vec<RawPatch>>)
        ensures
            final(self).regions() == old(self).regions().push(region_id),
    {
        self.terrain_receivers.push(RegionReceiver { region: region_id, channel: receiver });
        assert(self.regions() =~= old(self).regions().push(region_id));
    }

    /// The number of registered channels.
    pub fn len(&self) -> (n: usize)
        ensures
            n == self.regions().len(),
    {
        self.terrain_receivers.len()
    }

    /// Whether a channel is registered for `region_id`.
    pub fn is_registered(&self, region_id: RegionId) -> (found: bool)
        ensures
            found == self.regions().contains(region_id),
    {
        let mut i: usize = 0;
        while i < self.terrain_receivers.len()
            invariant
                i <= self.terrain_receivers@.len(),
                forall|j: int| 0 <= j < i ==> self.regions()[j] != region_id,
            decreases self.terrain_receivers@.len() - i,
        {
            if self.terrain_receivers[i].region == region_id {
                assert(self.regions()[i as int] == region_id);
                return true;
            }
            i += 1;
        }
        false
    }

    /// One pass over the registered channels. Each channel is asked once,
    /// without blocking. A waiting batch is converted and entered into the
    /// report; an empty channel is passed over; a closed one is reported and
    /// its region is no longer registered.
    ///
    /// What the channels hold is not known here, so the contract speaks of
    /// whatever outcomes the receives had: the report and the remaining
    /// regions are exactly what [`drained`] and [`surviving`] make of them.
    pub fn drain_all(&mut self) -> (report: DrainReport)
        ensures
            exists|outcomes: Seq<ReceiveOutcome>|
                {
                    &&& outcomes.len() == old(self).regions().len()
                    &&& report@ == #[trigger] drained(old(self).regions(), outcomes)
                    &&& final(self).regions() == surviving(old(self).regions(), outcomes)
                },
    {
        let ghost before = self.regions();
        let ghost mut outcomes: Seq<ReceiveOutcome> = Seq::empty();
        let mut report = DrainReport::new();
        let mut i: usize = 0;
        proof {
            assert(before.skip(0) =~= before);
            assert(Seq::<RegionId>::empty() + before =~= before);
        }
        while i < self.terrain_receivers.len()
            invariant
                outcomes.len() <= before.len(),
                i == surviving(before.take(outcomes.len() as int), outcomes).len(),
                self.regions() == surviving(before.take(outcomes.len() as int), outcomes)
                    + before.skip(outcomes.len() as int),
                report@ == drained(before.take(outcomes.len() as int), outcomes),
            decreases before.len() - outcomes.len(),
        {
            let ghost seen = outcomes.len() as int;
            let ghost earlier = outcomes;
            let ghost kept = surviving(before.take(seen), outcomes);
            let ghost current = self.regions();
            let region = self.terrain_receivers[i].region;
            assert(region == current[i as int]);
            assert(seen < before.len() && region == before[seen]);
            let outcome = try_receive(&self.terrain_receivers[i].channel);
            proof {
                outcomes = outcomes.push(outcome);
                assert(before.take(seen + 1).drop_last() =~= before.take(seen));
                assert(before.take(seen + 1).last() == region);
                assert(outcomes.drop_last() =~= earlier);
                assert(outcomes.last() == outcome);
                assert(surviving(before.take(seen + 1), outcomes) == if outcome is Disconnected {
                    kept
                } else {
                    kept.push(region)
                });
            }
            let keep = absorb(region, outcome, &mut report);
            if keep {
                i += 1;
                assert(current =~= kept.push(region) + before.skip(seen + 1));
            } else {
                self.terrain_receivers.remove(i);
                assert(self.regions() =~= current.remove(i as int));
                assert(current.remove(i as int) =~= kept + before.skip(seen + 1));
            }
        }
        proof {
            assert(before.take(before.len() as int) =~= before);
        }
        report
    }
}

} // verus!
