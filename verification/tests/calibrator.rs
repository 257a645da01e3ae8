use rpppp::harness::done_work;
use rpppp::tsc::{
    batch_accepted, burn, calibration_accepted, calibration_step, cycles_average,
    get_total_work_per_packet, tsc_hz_from,
};

#[test]
fn burn_runs() {
    burn(0);
    burn(1000);
}

#[test]
fn average_of_samples() {
    assert_eq!(cycles_average(&vec![10, 20, 30]), 20);
    assert_eq!(cycles_average(&vec![7]), 7);
    // the mean truncates
    assert_eq!(cycles_average(&vec![1, 2]), 1);
}

#[test]
fn calibration_step_scales_proportionally() {
    // measured too slow by 2x: halve the loop count
    assert_eq!(calibration_step(1000, 100, 2000), 50);
    // measured too fast by 2x: double it
    assert_eq!(calibration_step(1000, 100, 500), 200);
    // on target: unchanged
    assert_eq!(calibration_step(1000, 100, 1000), 100);
    // never below one iteration
    assert_eq!(calibration_step(1, 1, 1000), 1);
}

#[test]
fn acceptance_is_two_percent() {
    // 1000 +- 20 cycles is the edge of the 2% band
    assert!(calibration_accepted(1000, 1000));
    assert!(calibration_accepted(1000, 1020));
    assert!(calibration_accepted(1000, 980));
    assert!(!calibration_accepted(1000, 1021));
    assert!(!calibration_accepted(1000, 979));
}

#[test]
fn batch_accepted_requires_every_target() {
    assert!(batch_accepted(&vec![1000, 2000], &vec![1010, 1990]));
    assert!(!batch_accepted(&vec![1000, 2000], &vec![1010, 1900]));
    assert!(batch_accepted(&vec![], &vec![]));
}

#[test]
fn work_per_packet_sums_stage_targets() {
    assert_eq!(get_total_work_per_packet(&vec![1000, 1000, 1000]), 3000);
    assert_eq!(get_total_work_per_packet(&vec![]), 0);
}

#[test]
fn done_work_is_packets_times_target() {
    assert_eq!(done_work(10, 3000), 30_000);
    assert_eq!(done_work(0, 3000), 0);
}

#[test]
fn tsc_hz_from_timed_interval() {
    // three billion cycles in one second
    assert_eq!(tsc_hz_from(3_000_000, 1_000_000), 3_000_000);
    // half a second of the same clock
    assert_eq!(tsc_hz_from(1_500_000, 500_000), 3_000_000);
}
