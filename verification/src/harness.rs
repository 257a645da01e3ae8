//! Harness-facing logic: validating the core layout, parsing the
//! command-line worker-core list and measurement mode, and the integer
//! parts of the final report.

use vstd::prelude::*;

use crate::types::{MeasurementMode, SchedulingType};

verus! {

/// A configuration fault: the run is refused before any executor spawns.
#[derive(Clone, Copy, PartialEq, Eq, Structural, Debug)]
pub enum ConfigError {
    /// No worker core was given.
    EmptyWorkerSet,
    /// The same CPU was named twice across workers, generator and
    /// controller.
    DuplicateCores,
    /// A named CPU is not online.
    CoreNotAvailable,
    /// The worker-core list is not a comma-separated list of CPU numbers.
    InvalidCoreList,
    /// The measurement-mode argument names no known mode.
    UnsupportedMeasurementMode,
    /// The CPU has no invariant TSC, so cycle targets are meaningless.
    NoInvariantTsc,
}

/// All CPUs a run would use: the worker cores, then the generator core and
/// the controller core where present.
pub open spec fn all_cores(
    workers: Seq<u16>,
    generator: Option<u16>,
    controller: Option<u16>,
) -> Seq<u16> {
    workers + (match generator {
        Some(g) => seq![g],
        None => Seq::<u16>::empty(),
    }) + (match controller {
        Some(c) => seq![c],
        None => Seq::<u16>::empty(),
    })
}

/// No CPU appears twice.
pub open spec fn distinct_cores(s: Seq<u16>) -> bool {
    forall|i: int, j: int| 0 <= i < j < s.len() ==> s[i] != s[j]
}

/// Every CPU is among the `num_avail` online ones.
pub open spec fn cores_available(s: Seq<u16>, num_avail: usize) -> bool {
    forall|i: int| 0 <= i < s.len() ==> (s[i] as int) < num_avail
}

/// Validates the cores a run would use: at least one worker, no CPU named
/// twice, and every CPU online. Checked in that order, so the error names
/// the first fault.
pub fn verify_core_layout(
    worker_cores: &Vec<u16>,
    generator_core: Option<u16>,
    controller_core: Option<u16>,
    num_avail_cores: usize,
) -> (r: Result<(), ConfigError>)
    ensures
        ({
            let cores = all_cores(worker_cores@, generator_core, controller_core);
            &&& (r is Ok <==> worker_cores@.len() > 0 && distinct_cores(cores) && cores_available(
                cores,
                num_avail_cores,
            ))
            &&& (r == Err::<(), ConfigError>(ConfigError::EmptyWorkerSet) <==> worker_cores@.len()
                == 0)
            &&& (r == Err::<(), ConfigError>(ConfigError::DuplicateCores) <==> worker_cores@.len()
                > 0 && !distinct_cores(cores))
            &&& (r == Err::<(), ConfigError>(ConfigError::CoreNotAvailable)
                <==> worker_cores@.len() > 0 && distinct_cores(cores) && !cores_available(
                cores,
                num_avail_cores,
            ))
        }),
{
    let ghost spec_cores = all_cores(worker_cores@, generator_core, controller_core);
    if worker_cores.len() == 0 {
        return Err(ConfigError::EmptyWorkerSet);
    }
    let mut cores: Vec<u16> = Vec::new();
    let mut i: usize = 0;
    while i < worker_cores.len()
        invariant
            i <= worker_cores@.len(),
            cores@ == worker_cores@.subrange(0, i as int),
        decreases worker_cores@.len() - i,
    {
        cores.push(worker_cores[i]);
        i = i + 1;
    }
    proof {
        assert(cores@ =~= worker_cores@);
    }
    match generator_core {
        Some(g) => cores.push(g),
        None => (),
    }
    match controller_core {
        Some(c) => cores.push(c),
        None => (),
    }
    proof {
        assert(cores@ =~= spec_cores);
    }
    let n = cores.len();
    let mut a: usize = 0;
    while a < n
        invariant
            a <= n,
            n == cores@.len(),
            cores@ == spec_cores,
            spec_cores == all_cores(worker_cores@, generator_core, controller_core),
            worker_cores@.len() > 0,
            forall|x: int, y: int| 0 <= x < y < cores@.len() && x < a ==> cores@[x] != cores@[y],
        decreases n - a,
    {
        let mut b: usize = a + 1;
        while b < n
            invariant
                a < b <= n,
                n == cores@.len(),
                cores@ == spec_cores,
                spec_cores == all_cores(worker_cores@, generator_core, controller_core),
                worker_cores@.len() > 0,
                forall|y: int| a < y < b ==> cores@[a as int] != cores@[y],
            decreases n - b,
        {
            if cores[a] == cores[b] {
                proof {
                    assert(spec_cores[a as int] == spec_cores[b as int]);
                    assert(!distinct_cores(spec_cores));
                }
                return Err(ConfigError::DuplicateCores);
            }
            b = b + 1;
        }
        a = a + 1;
    }
    let mut k: usize = 0;
    while k < n
        invariant
            k <= n,
            n == cores@.len(),
            cores@ == spec_cores,
            spec_cores == all_cores(worker_cores@, generator_core, controller_core),
            worker_cores@.len() > 0,
            distinct_cores(cores@),
            forall|x: int| 0 <= x < k ==> (cores@[x] as int) < num_avail_cores,
        decreases n - k,
    {
        if (cores[k] as usize) >= num_avail_cores {
            proof {
                assert((spec_cores[k as int] as int) >= num_avail_cores);
                assert(!cores_available(spec_cores, num_avail_cores));
            }
            return Err(ConfigError::CoreNotAvailable);
        }
        k = k + 1;
    }
    Ok(())
}

/// An ASCII decimal digit.
pub open spec fn is_ascii_digit(b: u8) -> bool {
    48 <= b <= 57
}

/// The number an all-digit byte group denotes.
pub open spec fn digits_value(s: Seq<u8>) -> int
    decreases s.len(),
{
    if s.len() == 0 {
        0
    } else {
        digits_value(s.drop_last()) * 10 + (s.last() - 48)
    }
}

/// A valid group: at least one byte, digits only, and a value that fits a
/// CPU number.
pub open spec fn core_group_ok(g: Seq<u8>) -> bool {
    &&& g.len() > 0
    &&& forall|j: int| 0 <= j < g.len() ==> is_ascii_digit(g[j])
    &&& digits_value(g) <= u16::MAX
}

/// Parses `s` from position `i` on, with `cur` the bytes of the group read
/// so far and `acc` the values already parsed: the values of all
/// comma-separated groups, or nothing if any group is invalid.
pub open spec fn spec_parse_cores(s: Seq<u8>, i: int, cur: Seq<u8>, acc: Seq<u16>) -> Option<
    Seq<u16>,
>
    decreases s.len() - i,
{
    if i < 0 || i > s.len() {
        None
    } else if i == s.len() {
        if core_group_ok(cur) {
            Some(acc.push(digits_value(cur) as u16))
        } else {
            None
        }
    } else if s[i] == 44 {
        if core_group_ok(cur) {
            spec_parse_cores(s, i + 1, Seq::empty(), acc.push(digits_value(cur) as u16))
        } else {
            None
        }
    } else {
        spec_parse_cores(s, i + 1, cur.push(s[i]), acc)
    }
}

/// The worker-core numbers a command-line argument denotes, or nothing if
/// it is not a comma-separated list of CPU numbers.
pub open spec fn spec_core_list(s: Seq<u8>) -> Option<Seq<u16>> {
    spec_parse_cores(s, 0, Seq::empty(), Seq::empty())
}

proof fn lemma_digits_value_nonneg(s: Seq<u8>)
    requires
        forall|j: int| 0 <= j < s.len() ==> is_ascii_digit(s[j]),
    ensures
        digits_value(s) >= 0,
    decreases s.len(),
{
    if s.len() > 0 {
        lemma_digits_value_nonneg(s.drop_last());
    }
}

/// Parses the comma-separated worker-core list, e.g. `1,2,3`: each group
/// must be a decimal CPU number that fits in a `u16`.
pub fn parse_core_list(arg: &[u8]) -> (r: Result<Vec<u16>, ConfigError>)
    ensures
        r matches Ok(v) ==> spec_core_list(arg@) == Some(v@),
        r is Err ==> spec_core_list(arg@) is None && r == Err::<Vec<u16>, ConfigError>(
            ConfigError::InvalidCoreList,
        ),
{
    let mut acc: Vec<u16> = Vec::new();
    let mut cur_len: usize = 0;
    let mut all_digits: bool = true;
    let mut cur_val: u32 = 0;
    let mut i: usize = 0;
    proof {
        assert(arg@.subrange(0, 0) =~= Seq::<u8>::empty());
    }
    while i < arg.len()
        invariant
            cur_len <= i <= arg@.len(),
            spec_parse_cores(
                arg@,
                i as int,
                arg@.subrange(i - cur_len, i as int),
                acc@,
            ) == spec_core_list(arg@),
            all_digits == (forall|j: int| i - cur_len <= j < i ==> is_ascii_digit(#[trigger] arg@[j])),
            all_digits ==> ({
                let dv = digits_value(arg@.subrange(i - cur_len, i as int));
                &&& (dv <= 65535 ==> cur_val == dv)
                &&& (dv > 65535 ==> cur_val == 65536)
            }),
        decreases arg@.len() - i,
    {
        let b = arg[i];
        let ghost cur = arg@.subrange(i - cur_len, i as int);
        proof {
            if all_digits {
                assert forall|j: int| 0 <= j < cur.len() implies is_ascii_digit(cur[j]) by {
                    assert(cur[j] == arg@[i - cur_len + j]);
                }
                lemma_digits_value_nonneg(cur);
            } else {
                let j0 = choose|j: int| i - cur_len <= j < i && !is_ascii_digit(arg@[j]);
                assert(cur[j0 - (i - cur_len)] == arg@[j0]);
                assert(!core_group_ok(cur));
            }
        }
        if b == 44 {
            if all_digits && cur_len > 0 && cur_val <= 65535 {
                proof {
                    assert(core_group_ok(cur));
                    assert(digits_value(cur) == cur_val);
                    assert(arg@.subrange(i + 1, i + 1) =~= Seq::<u8>::empty());
                }
                acc.push(cur_val as u16);
                cur_len = 0;
                cur_val = 0;
            } else {
                proof {
                    assert(!core_group_ok(cur));
                }
                return Err(ConfigError::InvalidCoreList);
            }
        } else {
            let ghost cur1 = arg@.subrange(i + 1 - (cur_len + 1), i + 1);
            proof {
                assert(cur1 =~= cur.push(b));
                assert(cur1.drop_last() =~= cur);
                assert(cur1.last() == b);
                assert(digits_value(cur1) == digits_value(cur) * 10 + (b - 48));
            }
            let ghost was_digits = all_digits;
            if all_digits && 48 <= b && b <= 57 {
                let d = (b - 48) as u32;
                let next = cur_val * 10 + d;
                cur_val = if next > 65536 {
                    65536
                } else {
                    next
                };
                proof {
                    assert forall|j: int| i + 1 - (cur_len + 1) <= j < i + 1 implies is_ascii_digit(
                        #[trigger] arg@[j],
                    ) by {
                        if j < i {
                        } else {
                            assert(arg@[j] == b);
                        }
                    }
                }
            } else {
                all_digits = false;
                proof {
                    if was_digits {
                        assert(!is_ascii_digit(arg@[i as int]));
                    } else {
                        let j0 = choose|j: int| i - cur_len <= j < i && !is_ascii_digit(arg@[j]);
                        assert(!is_ascii_digit(arg@[j0]));
                    }
                }
            }
            cur_len = cur_len + 1;
        }
        i = i + 1;
    }
    let ghost cur = arg@.subrange(i - cur_len, i as int);
    proof {
        if all_digits {
            assert forall|j: int| 0 <= j < cur.len() implies is_ascii_digit(cur[j]) by {
                assert(cur[j] == arg@[i - cur_len + j]);
            }
            lemma_digits_value_nonneg(cur);
        } else {
            let j0 = choose|j: int| i - cur_len <= j < i && !is_ascii_digit(arg@[j]);
            assert(cur[j0 - (i - cur_len)] == arg@[j0]);
            assert(!core_group_ok(cur));
        }
    }
    if all_digits && cur_len > 0 && cur_val <= 65535 {
        proof {
            assert(core_group_ok(cur));
            assert(digits_value(cur) == cur_val);
        }
        acc.push(cur_val as u16);
        Ok(acc)
    } else {
        proof {
            assert(!core_group_ok(cur));
        }
        Err(ConfigError::InvalidCoreList)
    }
}

/// The measurement mode a command-line argument selects: `0` is
/// throughput-only, `1` total latency, `2` stage-switching latency. Any
/// other value is a configuration fault under distributed scheduling and
/// silently selects throughput-only under centralized scheduling.
pub fn measurement_mode_from_arg(arg: &[u8], scheduling_type: SchedulingType) -> (r: Result<
    MeasurementMode,
    ConfigError,
>)
    ensures
        arg@ =~= seq![48u8] ==> r == Ok::<MeasurementMode, ConfigError>(MeasurementMode::Off),
        arg@ =~= seq![49u8] ==> r == Ok::<MeasurementMode, ConfigError>(MeasurementMode::Total),
        arg@ =~= seq![50u8] ==> r == Ok::<MeasurementMode, ConfigError>(
            MeasurementMode::Switching,
        ),
        !(arg@ =~= seq![48u8]) && !(arg@ =~= seq![49u8]) && !(arg@ =~= seq![50u8]) ==> r == (
        if scheduling_type is Dsw {
            Err::<MeasurementMode, ConfigError>(ConfigError::UnsupportedMeasurementMode)
        } else {
            Ok::<MeasurementMode, ConfigError>(MeasurementMode::Off)
        }),
{
    if arg.len() == 1 {
        let b = arg[0];
        if b == 48 {
            return Ok(MeasurementMode::Off);
        }
        if b == 49 {
            return Ok(MeasurementMode::Total);
        }
        if b == 50 {
            return Ok(MeasurementMode::Switching);
        }
    }
    proof {
        assert(!(arg@ =~= seq![48u8]) && !(arg@ =~= seq![49u8]) && !(arg@ =~= seq![50u8]));
    }
    if scheduling_type == SchedulingType::Dsw {
        Err(ConfigError::UnsupportedMeasurementMode)
    } else {
        Ok(MeasurementMode::Off)
    }
}

/// The cycles of useful work a run performed: fully processed packets
/// times the per-packet cycle target.
pub fn done_work(packets_processed: u64, work_per_packet: u64) -> (r: u64)
    requires
        packets_processed * work_per_packet <= u64::MAX,
    ensures
        r == packets_processed * work_per_packet,
{
    packets_processed * work_per_packet
}

} // verus!
