use rpppp::controller::{
    controller_dispatch, controller_handle_return, controller_init_step, increment_round_robin,
    round_robin_get_next_shard, ControllerAction, ControllerState, ProtocolError, ReturnEvent,
};
use rpppp::types::{ControlMessage, Msg, Pipeline, SchedulingType};
use rpppp::workers::{
    worker_handle_message, worker_state_step, WorkerEvent, WorkerState,
};

fn fresh_msg(stages: usize) -> Msg<u32> {
    Msg { data: 0u32, pipeline: Pipeline::new(stages).unwrap(), pipeline_index: 0, timestamp: 0 }
}

#[test]
fn round_robin_skips_controller() {
    // four shards: controller 0 plus workers 1..=3
    assert_eq!(round_robin_get_next_shard(4, 0), 1);
    assert_eq!(round_robin_get_next_shard(4, 1), 2);
    assert_eq!(round_robin_get_next_shard(4, 2), 3);
    assert_eq!(round_robin_get_next_shard(4, 3), 1);
}

#[test]
fn round_robin_counter_advances() {
    let mut rr: usize = 0;
    assert_eq!(increment_round_robin(&mut rr, 3), 1);
    assert_eq!(increment_round_robin(&mut rr, 3), 2);
    assert_eq!(increment_round_robin(&mut rr, 3), 1);
    assert_eq!(rr, 1);
}

#[test]
fn round_robin_is_fair() {
    // 10 dispatches among 3 workers: each worker gets 3 or 4
    let mut rr: usize = 0;
    let mut counts = [0usize; 4];
    for _ in 0..10 {
        let w = increment_round_robin(&mut rr, 4);
        counts[w] += 1;
    }
    assert_eq!(counts[0], 0);
    for w in 1..4 {
        assert!(counts[w] == 3 || counts[w] == 4);
    }
    assert_eq!(counts[1] + counts[2] + counts[3], 10);
}

#[test]
fn sw_run_counts_processed_packets() {
    // a centralized-scheduling run over three workers: each message makes
    // one controller round trip per stage; every message completes its
    // whole pipeline, so drain finishes with every packet processed
    let nr_shards = 4;
    let stages = 3;
    let packets = 10u64;
    let mut st = ControllerState::new(nr_shards);
    let mut rr_workers = vec![0usize; nr_shards];
    for _ in 0..packets {
        let mut msg = fresh_msg(stages);
        let dest = controller_dispatch(&mut st, true).unwrap();
        assert!(dest >= 1 && dest < nr_shards);
        let mut at = dest;
        loop {
            // the worker at `at` runs one stage and returns to shard 0
            let back = worker_handle_message(
                &mut msg,
                SchedulingType::Sw,
                &mut rr_workers[at],
                nr_shards,
                true,
            );
            assert_eq!(back, 0);
            let terminal = msg.is_terminal();
            match controller_handle_return(
                &mut st,
                ReturnEvent { terminal, before_stop: true },
            ) {
                ControllerAction::Redispatch { next_shard } => at = next_shard,
                ControllerAction::Complete => break,
            }
        }
        // each stage ran exactly once
        assert_eq!(msg.pipeline_index, stages);
    }
    assert_eq!(st.sent_messages, packets);
    assert_eq!(st.processed_packets, packets);
    assert!(st.drain_complete());
}

#[test]
fn dsw_single_stage_returns_after_one_hop() {
    // a pipeline with one stage and four empty slots under distributed
    // scheduling: each message makes exactly one worker hop, then returns
    // to the controller
    let nr_shards = 4;
    let mut rr: usize = 0;
    for _ in 0..5 {
        let mut msg = fresh_msg(1);
        let dest = worker_handle_message(&mut msg, SchedulingType::Dsw, &mut rr, nr_shards, true);
        assert_eq!(dest, 0);
        assert_eq!(msg.pipeline_index, 1);
        assert!(msg.is_terminal());
    }
}

#[test]
fn dsw_keeps_live_messages_off_the_controller() {
    // three stages under distributed scheduling: the first two hops go to
    // workers, only the last to shard 0
    let nr_shards = 4;
    let mut rr: usize = 0;
    let mut msg = fresh_msg(3);
    let d1 = worker_handle_message(&mut msg, SchedulingType::Dsw, &mut rr, nr_shards, true);
    assert!(d1 != 0);
    let d2 = worker_handle_message(&mut msg, SchedulingType::Dsw, &mut rr, nr_shards, true);
    assert!(d2 != 0);
    let d3 = worker_handle_message(&mut msg, SchedulingType::Dsw, &mut rr, nr_shards, true);
    assert_eq!(d3, 0);
    assert_eq!(msg.pipeline_index, 3);
}

#[test]
fn late_message_is_forwarded_untouched() {
    // at or past the deadline a worker runs no stage and sends the message
    // straight to the controller, so drain can finish
    let mut rr: usize = 0;
    let mut msg = fresh_msg(3);
    let dest = worker_handle_message(&mut msg, SchedulingType::Dsw, &mut rr, 4, false);
    assert_eq!(dest, 0);
    assert_eq!(msg.pipeline_index, 0);
}

#[test]
fn controller_drops_messages_after_deadline() {
    let mut st = ControllerState::new(3);
    assert_eq!(controller_dispatch(&mut st, false), None);
    assert_eq!(st.sent_messages, 0);
}

#[test]
fn late_returns_count_for_drain_but_not_throughput() {
    let mut st = ControllerState::new(3);
    let _ = controller_dispatch(&mut st, true).unwrap();
    let act = controller_handle_return(
        &mut st,
        ReturnEvent { terminal: false, before_stop: false },
    );
    assert_eq!(act, ControllerAction::Complete);
    assert_eq!(st.return_counter, 1);
    assert_eq!(st.processed_packets, 0);
    assert!(st.drain_complete());
}

#[test]
fn init_barrier_accepts_exactly_all_workers() {
    let mut received: usize = 0;
    assert_eq!(
        controller_init_step(&mut received, ControlMessage::WorkerInitializationComplete, 3),
        Ok(false)
    );
    assert_eq!(
        controller_init_step(&mut received, ControlMessage::WorkerInitializationComplete, 3),
        Ok(false)
    );
    assert_eq!(
        controller_init_step(&mut received, ControlMessage::WorkerInitializationComplete, 3),
        Ok(true)
    );
}

#[test]
fn init_barrier_rejects_other_control_messages() {
    let mut received: usize = 0;
    assert_eq!(
        controller_init_step(&mut received, ControlMessage::Shutdown, 3),
        Err(ProtocolError::UnexpectedControlMessage)
    );
    assert_eq!(received, 0);
}

#[test]
fn worker_lifecycle_happy_path() {
    let (s1, emit) = worker_state_step(WorkerState::Joining, WorkerEvent::MeshesJoined).unwrap();
    assert_eq!(s1, WorkerState::Initialized);
    assert_eq!(emit, Some(ControlMessage::WorkerInitializationComplete));
    let (s2, e2) = worker_state_step(s1, WorkerEvent::StartDispatching).unwrap();
    assert_eq!(s2, WorkerState::Running);
    assert_eq!(e2, None);
    let (s3, e3) = worker_state_step(s2, WorkerEvent::ShutdownReceived).unwrap();
    assert_eq!(s3, WorkerState::Closing);
    assert_eq!(e3, None);
    let (s4, e4) = worker_state_step(s3, WorkerEvent::DataMeshClosed).unwrap();
    assert_eq!(s4, WorkerState::Done);
    assert_eq!(e4, None);
}

#[test]
fn worker_lifecycle_rejects_out_of_order_events() {
    assert_eq!(
        worker_state_step(WorkerState::Joining, WorkerEvent::ShutdownReceived),
        Err(ProtocolError::UnexpectedEvent)
    );
    assert_eq!(
        worker_state_step(WorkerState::Done, WorkerEvent::MeshesJoined),
        Err(ProtocolError::UnexpectedEvent)
    );
}

#[test]
fn pipeline_from_slots() {
    let p = Pipeline::from_slots(&vec![true, true, true, false, false]).unwrap();
    assert_eq!(p.stage_count(), 3);
    assert!(p.is_stage(2));
    assert!(!p.is_stage(3));
    // a pipeline needs at least one trailing empty slot
    assert!(Pipeline::from_slots(&vec![true, true, true, true, true]).is_none());
    // a stage after an empty slot is no prefix
    assert!(Pipeline::from_slots(&vec![true, false, true, false, false]).is_none());
    // the descriptor always has five slots
    assert!(Pipeline::from_slots(&vec![true, false]).is_none());
}
