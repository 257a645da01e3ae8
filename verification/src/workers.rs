//! Worker-side logic: executing one pipeline stage per received message,
//! choosing the next hop per scheduling policy, the latency-measurement
//! decision at stage entry, and the worker lifecycle state machine.
//!
//! The stage functions themselves and the mesh plumbing run outside the
//! library; a worker's decisions are the verified transitions here.

use vstd::prelude::*;

use crate::controller::{increment_round_robin, rr_next, ProtocolError};
use crate::types::{
    ControlMessage, MeasurementMode, Msg, Pipeline, SchedulingType, DATA_MESH_CONTROLLER_ID,
    PIPELINE_SIZE,
};

verus! {

/// Advances a message past the stage that just ran and picks the next hop:
/// back to the controller under centralized scheduling or when the pipeline
/// is exhausted, and on to `next_shard` under distributed scheduling while
/// stages remain.
pub fn worker_execute_step<MsgData>(
    msg: &mut Msg<MsgData>,
    scheduling_type: SchedulingType,
    next_shard: usize,
) -> (dest: usize)
    requires
        old(msg).wf(),
        !old(msg).spec_is_terminal(),
        next_shard >= 1,
    ensures
        final(msg).wf(),
        final(msg).pipeline_index <= PIPELINE_SIZE,
        final(msg).pipeline == old(msg).pipeline,
        final(msg).data == old(msg).data,
        final(msg).timestamp == old(msg).timestamp,
        final(msg).pipeline_index == old(msg).pipeline_index + 1,
        dest == if scheduling_type is Sw || final(msg).spec_is_terminal() {
            DATA_MESH_CONTROLLER_ID as int
        } else {
            next_shard as int
        },
        scheduling_type is Sw ==> dest == DATA_MESH_CONTROLLER_ID,
        scheduling_type is Dsw && !final(msg).spec_is_terminal() ==> dest
            != DATA_MESH_CONTROLLER_ID,
{
    msg.pipeline_index = msg.pipeline_index + 1;
    if scheduling_type == SchedulingType::Sw || msg.is_terminal() {
        DATA_MESH_CONTROLLER_ID
    } else {
        next_shard
    }
}

/// Handles one message arriving at a worker shard, mirroring the worker's
/// receive path: the local round-robin counter always advances; before the
/// deadline the pending stage runs (the caller invokes the stage function on
/// the message first) and the message moves on per policy; at or past the
/// deadline the message is forwarded to the controller untouched, which
/// guarantees that drain terminates.
pub fn worker_handle_message<MsgData>(
    msg: &mut Msg<MsgData>,
    scheduling_type: SchedulingType,
    rr: &mut usize,
    nr_shards: usize,
    before_stop: bool,
) -> (dest: usize)
    requires
        old(msg).wf(),
        nr_shards >= 2,
        before_stop ==> !old(msg).spec_is_terminal(),
    ensures
        *final(rr) == rr_next(nr_shards - 1, *old(rr) as int),
        final(msg).wf(),
        final(msg).pipeline_index <= PIPELINE_SIZE,
        final(msg).pipeline == old(msg).pipeline,
        final(msg).data == old(msg).data,
        final(msg).timestamp == old(msg).timestamp,
        final(msg).pipeline_index >= old(msg).pipeline_index,
        dest < nr_shards,
        !before_stop ==> {
            &&& *final(msg) == *old(msg)
            &&& dest == DATA_MESH_CONTROLLER_ID
        },
        before_stop ==> {
            &&& final(msg).pipeline_index == old(msg).pipeline_index + 1
            &&& dest == if scheduling_type is Sw || final(msg).spec_is_terminal() {
                DATA_MESH_CONTROLLER_ID as int
            } else {
                rr_next(nr_shards - 1, *old(rr) as int)
            }
        },
        scheduling_type is Sw ==> dest == DATA_MESH_CONTROLLER_ID,
        scheduling_type is Dsw && before_stop && !final(msg).spec_is_terminal() ==> dest
            != DATA_MESH_CONTROLLER_ID,
{
    let next_shard = increment_round_robin(rr, nr_shards);
    if before_stop {
        worker_execute_step(msg, scheduling_type, next_shard)
    } else {
        DATA_MESH_CONTROLLER_ID
    }
}

/// The histogram a stage entry records into, as a bucket row index, or
/// nothing. Throughput-only runs record nothing; total-latency runs record
/// into row 0 exactly when the stage about to run is the last one;
/// stage-switching runs record into the row of the stage about to run.
pub fn stage_entry_record(mode: MeasurementMode, pipeline: &Pipeline, pipeline_index: usize) -> (r:
    Option<usize>)
    requires
        pipeline.wf(),
        pipeline.spec_is_stage(pipeline_index as int),
    ensures
        mode is Off ==> r is None,
        mode is Total ==> r == if pipeline_index + 1 == pipeline.spec_stage_count() {
            Some(0usize)
        } else {
            Option::<usize>::None
        },
        mode is Switching ==> r == Some(pipeline_index),
{
    match mode {
        MeasurementMode::Off => None,
        MeasurementMode::Total => {
            if pipeline_index + 1 == pipeline.stage_count() {
                Some(0)
            } else {
                None
            }
        },
        MeasurementMode::Switching => Some(pipeline_index),
    }
}

/// A worker shard's lifecycle.
#[derive(Clone, Copy, PartialEq, Eq, Structural, Debug)]
pub enum WorkerState {
    /// Joining the control and data meshes.
    Joining,
    /// Both meshes joined; the initialization notice is being sent.
    Initialized,
    /// Handling data messages.
    Running,
    /// Told to shut down; closing the data mesh.
    Closing,
    /// All local tasks finished.
    Done,
}

/// What a worker shard observes.
#[derive(Clone, Copy, PartialEq, Eq, Structural, Debug)]
pub enum WorkerEvent {
    /// Both meshes are joined.
    MeshesJoined,
    /// The sharded handler begins dispatching.
    StartDispatching,
    /// `Shutdown` arrived from the controller on the control mesh.
    ShutdownReceived,
    /// The data-mesh sharder is closed and local tasks have drained.
    DataMeshClosed,
}

/// The lifecycle table: the state after `event`, with the control message
/// the worker must emit, or a protocol error for any pair outside the table.
pub open spec fn spec_worker_state_step(state: WorkerState, event: WorkerEvent) -> Result<
    (WorkerState, Option<ControlMessage>),
    ProtocolError,
> {
    match (state, event) {
        (WorkerState::Joining, WorkerEvent::MeshesJoined) => Ok(
            (WorkerState::Initialized, Some(ControlMessage::WorkerInitializationComplete)),
        ),
        (WorkerState::Initialized, WorkerEvent::StartDispatching) => Ok(
            (WorkerState::Running, None),
        ),
        (WorkerState::Running, WorkerEvent::ShutdownReceived) => Ok((WorkerState::Closing, None)),
        (WorkerState::Closing, WorkerEvent::DataMeshClosed) => Ok((WorkerState::Done, None)),
        _ => Err(ProtocolError::UnexpectedEvent),
    }
}

/// Advances a worker's lifecycle: joining leads to initialized (emitting the
/// initialization notice to shard 0), initialized to running, running to
/// closing on shutdown, and closing to done once the data mesh is closed.
/// Everything else is a protocol error.
pub fn worker_state_step(state: WorkerState, event: WorkerEvent) -> (r: Result<
    (WorkerState, Option<ControlMessage>),
    ProtocolError,
>)
    ensures
        r == spec_worker_state_step(state, event),
{
    match (state, event) {
        (WorkerState::Joining, WorkerEvent::MeshesJoined) => Ok(
            (WorkerState::Initialized, Some(ControlMessage::WorkerInitializationComplete)),
        ),
        (WorkerState::Initialized, WorkerEvent::StartDispatching) => Ok(
            (WorkerState::Running, None),
        ),
        (WorkerState::Running, WorkerEvent::ShutdownReceived) => Ok((WorkerState::Closing, None)),
        (WorkerState::Closing, WorkerEvent::DataMeshClosed) => Ok((WorkerState::Done, None)),
        _ => Err(ProtocolError::UnexpectedEvent),
    }
}

/// The pipeline index of a message after `n` executed stages.
pub open spec fn index_after_steps(start: int, n: nat) -> int
    decreases n,
{
    if n == 0 {
        start
    } else {
        index_after_steps(start, (n - 1) as nat) + 1
    }
}

proof fn lemma_index_after_steps(start: int, n: nat)
    ensures
        index_after_steps(start, n) == start + n,
    decreases n,
{
    if n > 0 {
        lemma_index_after_steps(start, (n - 1) as nat);
    }
}

/// Every message that runs to completion executes each of its stages
/// exactly once: starting at slot 0 of a well-formed pipeline, each of the
/// first `stage_count` steps still sees a stage (so each stage runs once and
/// the stage functions see a strictly growing index), and after exactly
/// `stage_count` steps — and not before — the message is terminal, its final
/// index equal to the number of non-empty stages.
pub proof fn lemma_pipeline_runs_each_stage_once(p: Pipeline)
    requires
        p.wf(),
    ensures
        index_after_steps(0, p.spec_stage_count() as nat) == p.spec_stage_count(),
        forall|j: nat|
            j < p.spec_stage_count() ==> p.spec_is_stage(#[trigger] index_after_steps(0, j)),
        !p.spec_is_stage(index_after_steps(0, p.spec_stage_count() as nat)),
        forall|j: nat, l: nat|
            j <= l ==> #[trigger] index_after_steps(0, j) <= #[trigger] index_after_steps(0, l),
{
    lemma_index_after_steps(0, p.spec_stage_count() as nat);
    assert forall|j: nat| j < p.spec_stage_count() implies p.spec_is_stage(
        #[trigger] index_after_steps(0, j),
    ) by {
        lemma_index_after_steps(0, j);
    }
    assert forall|j: nat, l: nat| j <= l implies #[trigger] index_after_steps(0, j)
        <= #[trigger] index_after_steps(0, l) by {
        lemma_index_after_steps(0, j);
        lemma_index_after_steps(0, l);
    }
}

} // verus!
