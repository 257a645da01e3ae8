//! The message and pipeline model, shard identities, and the tags shared by
//! the controller and the workers.

use vstd::prelude::*;

verus! {

/// The fixed length of every pipeline descriptor.
pub const PIPELINE_SIZE: usize = 5;

/// Total capacity of the data mesh; each link gets `MESH_CHANNEL_SIZE / N`.
pub const MESH_CHANNEL_SIZE: usize = 8192;

/// The shard ID reserved for the controller on the data mesh.
pub const DATA_MESH_CONTROLLER_ID: usize = 0;

/// The shard ID reserved for the controller on the control mesh.
pub const CONTROL_MESH_CONTROLLER_ID: usize = 0;

/// Communicates stages of the run between shards.
#[derive(Clone, Copy, PartialEq, Eq, Structural, Debug)]
pub enum ControlMessage {
    WorkerInitializationComplete,
    Shutdown,
}

/// Centralized software scheduling (every stage round-trips through the
/// controller) or distributed software scheduling (messages hop from worker
/// to worker and return to the controller only when drained).
#[derive(Clone, Copy, PartialEq, Eq, Structural, Debug)]
pub enum SchedulingType {
    Sw,
    Dsw,
}

/// What each stage entry records into the latency histograms.
#[derive(Clone, Copy, PartialEq, Eq, Structural, Debug)]
pub enum MeasurementMode {
    /// Throughput only; no histogram updates.
    Off,
    /// Time from message creation to the end of the last stage.
    Total,
    /// Time between consecutive stage starts.
    Switching,
}

/// A pipeline descriptor: `PIPELINE_SIZE` slots of which the first
/// `stage_count` hold stage functions and the rest are empty. At least one
/// trailing slot is always empty, so the slot at any in-range
/// `pipeline_index` exists.
#[derive(Clone, Copy, PartialEq, Eq, Structural, Debug)]
pub struct Pipeline {
    stage_count: usize,
}

/// Whether `slots` is a prefix of `k` stage slots followed by empty slots.
pub open spec fn prefix_of_stages(slots: Seq<bool>, k: int) -> bool {
    forall|i: int| 0 <= i < slots.len() ==> slots[i] == (i < k)
}

impl Pipeline {
    /// The number of non-empty stage slots.
    pub closed spec fn spec_stage_count(self) -> int {
        self.stage_count as int
    }

    /// A pipeline is well formed when it ends with at least one empty slot.
    pub open spec fn wf(self) -> bool {
        0 <= self.spec_stage_count() < PIPELINE_SIZE
    }

    /// Whether slot `i` holds a stage function (it is not empty).
    pub open spec fn spec_is_stage(self, i: int) -> bool {
        0 <= i < self.spec_stage_count()
    }

    /// Builds a pipeline of `stage_count` stages followed by empty slots;
    /// refused unless at least one slot stays empty.
    pub fn new(stage_count: usize) -> (r: Option<Pipeline>)
        ensures
            stage_count < PIPELINE_SIZE ==> (r matches Some(p) && p.wf()
                && p.spec_stage_count() == stage_count),
            stage_count >= PIPELINE_SIZE ==> r is None,
    {
        if stage_count < PIPELINE_SIZE {
            Some(Pipeline { stage_count })
        } else {
            None
        }
    }

    /// Builds a pipeline from its slot occupancy: the slots must be a prefix
    /// of stages terminated by empty slots, `PIPELINE_SIZE` in all.
    pub fn from_slots(slots: &Vec<bool>) -> (r: Option<Pipeline>)
        ensures
            r matches Some(p) ==> {
                &&& p.wf()
                &&& slots@.len() == PIPELINE_SIZE
                &&& forall|i: int| 0 <= i < PIPELINE_SIZE ==> slots@[i] == p.spec_is_stage(i)
            },
            r is None ==> !(slots@.len() == PIPELINE_SIZE
                && (exists|k: int| 0 <= k < PIPELINE_SIZE && #[trigger] prefix_of_stages(
                    slots@,
                    k,
                ))),
    {
        if slots.len() != PIPELINE_SIZE {
            return None;
        }
        let mut k: usize = 0;
        while k < PIPELINE_SIZE && slots[k]
            invariant
                0 <= k <= PIPELINE_SIZE,
                slots@.len() == PIPELINE_SIZE,
                forall|i: int| 0 <= i < k ==> slots@[i],
            decreases PIPELINE_SIZE - k,
        {
            k = k + 1;
        }
        if k == PIPELINE_SIZE {
            // all five slots are stages: no trailing empty slot
            proof {
                assert forall|kk: int| 0 <= kk < PIPELINE_SIZE implies !prefix_of_stages(
                    slots@,
                    kk,
                ) by {
                    assert(slots@[kk] && !(kk < kk));
                }
            }
            return None;
        }
        // every later slot must be empty
        let mut j: usize = k;
        while j < PIPELINE_SIZE
            invariant
                k <= j <= PIPELINE_SIZE,
                slots@.len() == PIPELINE_SIZE,
                k < PIPELINE_SIZE,
                !slots@[k as int],
                forall|i: int| 0 <= i < k ==> slots@[i],
                forall|i: int| k <= i < j ==> !slots@[i],
            decreases PIPELINE_SIZE - j,
        {
            if slots[j] {
                proof {
                    assert forall|kk: int| 0 <= kk < PIPELINE_SIZE implies !prefix_of_stages(
                        slots@,
                        kk,
                    ) by {
                        if kk <= k {
                            assert(slots@[j as int] && !((j as int) < kk));
                        } else {
                            assert(!slots@[k as int] && (k as int) < kk);
                        }
                    }
                }
                return None;
            }
            j = j + 1;
        }
        Some(Pipeline { stage_count: k })
    }

    /// The number of non-empty stage slots.
    pub fn stage_count(&self) -> (r: usize)
        ensures
            r == self.spec_stage_count(),
    {
        self.stage_count
    }

    /// Whether slot `i` holds a stage function.
    pub fn is_stage(&self, i: usize) -> (r: bool)
        ensures
            r == self.spec_is_stage(i as int),
    {
        i < self.stage_count
    }
}

/// The message that travels between the generator, the controller and the
/// workers: a payload, the pipeline descriptor, the index of the next stage
/// to execute, and a timestamp in microseconds whose meaning depends on the
/// measurement mode.
#[derive(Clone)]
pub struct Msg<MsgData> {
    pub data: MsgData,
    pub pipeline: Pipeline,
    pub pipeline_index: usize,
    pub timestamp: u64,
}

impl<MsgData> Msg<MsgData> {
    /// Invariant of every in-flight message: the pipeline is well formed and
    /// the index never passes `PIPELINE_SIZE`.
    pub open spec fn wf(self) -> bool {
        &&& self.pipeline.wf()
        &&& 0 <= self.pipeline_index <= PIPELINE_SIZE
    }

    /// A terminal message has an empty slot at its index; it must be routed
    /// to the controller shard.
    pub open spec fn spec_is_terminal(self) -> bool {
        !self.pipeline.spec_is_stage(self.pipeline_index as int)
    }

    /// Whether the slot at the current index is empty, so the message is
    /// done and belongs to the controller.
    pub fn is_terminal(&self) -> (r: bool)
        ensures
            r == self.spec_is_terminal(),
    {
        !self.pipeline.is_stage(self.pipeline_index)
    }
}

} // verus!
