use vstd::prelude::*;

verus! {

/// The micromegas level (1 = fatal .. 6 = trace) that an OpenTelemetry `severity_number` maps to.
pub open spec fn spec_severity_level(sev: i32) -> i32 {
    if sev <= 0 {
        if sev == 0 { 6 } else { 1 }
    } else if sev <= 4 {
        6
    } else if sev <= 8 {
        5
    } else if sev <= 12 {
        4
    } else if sev <= 16 {
        3
    } else if sev <= 20 {
        2
    } else {
        1
    }
}

/// Maps OTel `severity_number` (1-24) to micromegas `Level` (1-6): TRACE 1-4 -> 6, DEBUG 5-8 -> 5,
/// INFO 9-12 -> 4, WARN 13-16 -> 3, ERROR 17-20 -> 2, FATAL 21-24 -> 1. `0` (unspecified) maps to
/// the least severe level (6); anything else out of range maps to fatal (1).
pub fn severity_number_to_level(sev: i32) -> (level: i32)
    ensures
        level == spec_severity_level(sev),
        1 <= level <= 6,
{
    match sev {
        0 => 6,
        1..=4 => 6,
        5..=8 => 5,
        9..=12 => 4,
        13..=16 => 3,
        17..=20 => 2,
        21..=24 => 1,
        _ => 1,
    }
}

/// Each OpenTelemetry severity band of four numbers maps to one level, counting down from trace:
/// for `1 <= sev <= 24` the level is `6 - (sev - 1) / 4`, so TRACE (1-4) gives 6, DEBUG (5-8) 5,
/// INFO (9-12) 4, WARN (13-16) 3, ERROR (17-20) 2 and FATAL (21-24) 1. An unspecified number (0)
/// gives the least severe level, 6; any other number outside 1-24 gives fatal, 1.
pub proof fn severity_bands(sev: i32)
    ensures
        1 <= sev <= 24 ==> spec_severity_level(sev) == 6 - (sev - 1) / 4,
        sev == 0 ==> spec_severity_level(sev) == 6,
        (sev < 0 || sev > 24) ==> spec_severity_level(sev) == 1,
{
}

} // verus!
