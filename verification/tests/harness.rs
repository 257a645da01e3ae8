use rpppp::harness::{
    measurement_mode_from_arg, parse_core_list, verify_core_layout, ConfigError,
};
use rpppp::types::{MeasurementMode, Msg, Pipeline, SchedulingType};
use rpppp::workers::stage_entry_record;

#[test]
fn layout_accepts_distinct_online_cores() {
    assert_eq!(verify_core_layout(&vec![1, 2, 3], Some(7), Some(5), 8), Ok(()));
    assert_eq!(verify_core_layout(&vec![3], Some(7), None, 8), Ok(()));
}

#[test]
fn layout_rejects_duplicate_cores() {
    // worker cores 3,3 with generator core 7: refused before anything spawns
    assert_eq!(
        verify_core_layout(&vec![3, 3], Some(7), None, 8),
        Err(ConfigError::DuplicateCores)
    );
    // a worker sharing the generator core is a duplicate too
    assert_eq!(
        verify_core_layout(&vec![7, 1], Some(7), None, 8),
        Err(ConfigError::DuplicateCores)
    );
}

#[test]
fn layout_rejects_empty_and_offline() {
    assert_eq!(verify_core_layout(&vec![], Some(7), None, 8), Err(ConfigError::EmptyWorkerSet));
    assert_eq!(
        verify_core_layout(&vec![9], Some(7), None, 8),
        Err(ConfigError::CoreNotAvailable)
    );
}

#[test]
fn core_list_parses_comma_separated_numbers() {
    assert_eq!(parse_core_list(b"1,2,3"), Ok(vec![1, 2, 3]));
    assert_eq!(parse_core_list(b"3"), Ok(vec![3]));
    assert_eq!(parse_core_list(b"3,3"), Ok(vec![3, 3]));
    assert_eq!(parse_core_list(b"007"), Ok(vec![7]));
    assert_eq!(parse_core_list(b"65535"), Ok(vec![65535]));
}

#[test]
fn core_list_rejects_bad_input() {
    assert_eq!(parse_core_list(b""), Err(ConfigError::InvalidCoreList));
    assert_eq!(parse_core_list(b"1,,2"), Err(ConfigError::InvalidCoreList));
    assert_eq!(parse_core_list(b"1,2,"), Err(ConfigError::InvalidCoreList));
    assert_eq!(parse_core_list(b",1"), Err(ConfigError::InvalidCoreList));
    assert_eq!(parse_core_list(b"a"), Err(ConfigError::InvalidCoreList));
    assert_eq!(parse_core_list(b"1, 2"), Err(ConfigError::InvalidCoreList));
    assert_eq!(parse_core_list(b"65536"), Err(ConfigError::InvalidCoreList));
}

#[test]
fn measurement_mode_selection() {
    assert_eq!(
        measurement_mode_from_arg(b"0", SchedulingType::Dsw),
        Ok(MeasurementMode::Off)
    );
    assert_eq!(
        measurement_mode_from_arg(b"1", SchedulingType::Dsw),
        Ok(MeasurementMode::Total)
    );
    assert_eq!(
        measurement_mode_from_arg(b"2", SchedulingType::Sw),
        Ok(MeasurementMode::Switching)
    );
    // any other value: fatal under distributed scheduling, silently
    // throughput-only under centralized
    assert_eq!(
        measurement_mode_from_arg(b"9", SchedulingType::Dsw),
        Err(ConfigError::UnsupportedMeasurementMode)
    );
    assert_eq!(
        measurement_mode_from_arg(b"9", SchedulingType::Sw),
        Ok(MeasurementMode::Off)
    );
    assert_eq!(
        measurement_mode_from_arg(b"10", SchedulingType::Dsw),
        Err(ConfigError::UnsupportedMeasurementMode)
    );
}

#[test]
fn total_mode_records_once_per_packet() {
    // under total-latency measurement only the last stage of a pipeline
    // records, into row 0: one observation per completed packet
    let p = Pipeline::new(3).unwrap();
    assert_eq!(stage_entry_record(MeasurementMode::Total, &p, 0), None);
    assert_eq!(stage_entry_record(MeasurementMode::Total, &p, 1), None);
    assert_eq!(stage_entry_record(MeasurementMode::Total, &p, 2), Some(0));
}

#[test]
fn switching_mode_records_every_stage() {
    // under stage-switching measurement every stage entry records into the
    // row of that stage: one observation per stage per packet
    let p = Pipeline::new(3).unwrap();
    for s in 0..3 {
        assert_eq!(stage_entry_record(MeasurementMode::Switching, &p, s), Some(s));
    }
}

#[test]
fn off_mode_records_nothing() {
    let p = Pipeline::new(3).unwrap();
    for s in 0..3 {
        assert_eq!(stage_entry_record(MeasurementMode::Off, &p, s), None);
    }
}

#[test]
fn message_terminality_follows_pipeline() {
    let msg = Msg { data: 0u8, pipeline: Pipeline::new(2).unwrap(), pipeline_index: 0, timestamp: 0 };
    assert!(!msg.is_terminal());
    let done = Msg { pipeline_index: 2, ..msg };
    assert!(done.is_terminal());
}
