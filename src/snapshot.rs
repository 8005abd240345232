//! One complete telemetry record, ready to be sent.

use vstd::prelude::*;
use crate::numbers::{digit_char, digit_str};
use crate::tailer::HwTemps;

verus! {

/// The names of the machine's processor and graphics card.
pub struct SysInfo {
    pub cpu_name: String,
    pub gpu_name: String,
}

/// A snapshot: the machine's names, the local time, and both histories.
pub struct HwStats {
    pub info: SysInfo,
    pub time: String,
    pub temps: HwTemps,
}

/// `HH:MM` with leading zeros.
pub open spec fn clock_text(hour: int, minute: int) -> Seq<char> {
    seq![
        digit_char(hour / 10),
        digit_char(hour % 10),
        ':',
        digit_char(minute / 10),
        digit_char(minute % 10),
    ]
}

/// Writes a time of day as `HH:MM`.
pub fn format_clock(hour: u32, minute: u32) -> (r: String)
    requires
        hour < 24,
        minute < 60,
    ensures
        r@ == clock_text(hour as int, minute as int),
{
    let mut s = String::from_str(digit_str(hour / 10));
    s.append(digit_str(hour % 10));
    proof {
        reveal_strlit(":");
    }
    s.append(":");
    s.append(digit_str(minute / 10));
    s.append(digit_str(minute % 10));
    assert(s@ =~= clock_text(hour as int, minute as int));
    s
}

/// Relies on chrono's `Local::now` and `Timelike::{hour, minute}`: the local
/// wall-clock hour (0 to 23) and minute (0 to 59) at the time of the call.
#[verifier::external_body]
fn local_hour_minute() -> (r: (u32, u32))
    ensures
        r.0 < 24,
        r.1 < 60,
{
    let now = chrono::Local::now().naive_local();
    (chrono::Timelike::hour(&now), chrono::Timelike::minute(&now))
}

impl HwStats {
    /// The snapshot of `temps` for the machine `info`, at the time of day
    /// `hour`:`minute`.
    pub fn at(info: SysInfo, hour: u32, minute: u32, temps: HwTemps) -> (r: HwStats)
        requires
            hour < 24,
            minute < 60,
        ensures
            r.info == info,
            r.time@ == clock_text(hour as int, minute as int),
            r.temps == temps,
    {
        HwStats { info, time: format_clock(hour, minute), temps }
    }

    /// The snapshot of `temps` for the machine `info`, stamped with the local
    /// time now.
    pub fn now(info: SysInfo, temps: HwTemps) -> (r: HwStats)
        ensures
            r.info == info,
            r.temps == temps,
            exists|h: int, m: int| 0 <= h < 24 && 0 <= m < 60 && r.time@ == clock_text(h, m),
    {
        let (h, m) = local_hour_minute();
        HwStats::at(info, h, m, temps)
    }
}

} // verus!
