//! Hardware abstraction: triple modular redundancy in lockstep, the
//! decoding of the LEON status registers, and the reading of the ARM64
//! boards' sysfs attributes.

use vstd::prelude::*;
use crate::text::{
    chars_of, contains_text, parse_i64, parse_unsigned, spec_parse_i64, spec_parse_unsigned, str_contains,
    trim_chars, trim_ws,
};

verus! {

/// TMR failure.
#[derive(Debug, Clone, Copy, PartialEq, Eq, Structural)]
pub enum TmrError {
    /// The three executions do not all agree.
    TripleMismatch,
}

/// Result of a TMR computation.
pub type TmrResult<T> = Result<T, TmrError>;

/// Errors of the ARM64 hardware layer.
#[derive(Debug, Clone, PartialEq, Eq)]
pub enum HalError {
    WatchdogUnavailable(String),
    WatchdogPingFailed,
    ThermalSensorUnavailable,
    CpuFreqUnavailable,
    CpuFreqControlFailed,
    VoltageSensorUnavailable,
}

/// ECC error counters of the memory controller.
#[derive(Debug, Clone, Copy, PartialEq, Eq, Structural)]
pub struct EccCounters {
    pub correctable_errors: u64,
    pub uncorrectable_errors: u64,
    pub last_ce_address: u64,
    pub last_ue_address: u64,
}

/// Lockstep comparison of three results: their common value when all
/// three agree; any divergence (a single event upset in one run) is
/// reported as a mismatch rather than outvoted.
pub open spec fn spec_lockstep(a: u64, b: u64, c: u64) -> TmrResult<u64> {
    if a == b && b == c {
        Ok(a)
    } else {
        Err(TmrError::TripleMismatch)
    }
}

/// Lockstep comparison of three results.
pub fn lockstep_vote(a: u64, b: u64, c: u64) -> (r: TmrResult<u64>)
    ensures
        r == spec_lockstep(a, b, c),
{
    if a == b && b == c {
        Ok(a)
    } else {
        Err(TmrError::TripleMismatch)
    }
}

/// A fault in any one of the three runs is detected, and three agreeing
/// runs are never reported as a fault.
pub proof fn lemma_lockstep_detects_single_fault(a: u64, b: u64, c: u64)
    ensures
        (a == b && b == c) ==> spec_lockstep(a, b, c) == Ok::<u64, TmrError>(a),
        (a != b || b != c) ==> spec_lockstep(a, b, c) is Err,
        spec_lockstep(a, b, c) matches Ok(v) ==> v == a && v == b && v == c,
{
}

/// Portage of TMR to ARM lockstep.
pub struct ArmLockstep;

impl ArmLockstep {
    /// Runs a critical computation three times in lockstep: the result
    /// when the three runs agree, a mismatch otherwise.
    pub fn tmr_compute<F: Fn() -> u64 + Copy>(func: F) -> (r: TmrResult<u64>)
        requires
            call_requires(func, ()),
            forall|x: u64| call_ensures(func, (), x) ==> call_requires(func, ()),
        ensures
            exists|a: u64, b: u64, c: u64|
                call_ensures(func, (), a) && call_ensures(func, (), b) && call_ensures(func, (), c)
                    && r == spec_lockstep(a, b, c),
    {
        let result_a = func();
        let result_b = func();
        let result_c = func();
        lockstep_vote(result_a, result_b, result_c)
    }
}

/// Error of the space-grade hardware layer.
#[derive(Debug, Clone, Copy, PartialEq, Eq, Structural)]
pub enum SpaceError {
    HardwareAccessFailed,
    TmrDivergence,
    SelDetected,
    WatchdogTimeout,
    MemoryCorruption,
}

/// Status of the LEON hardware TMR.
#[derive(Debug, Clone, Copy, PartialEq, Eq, Structural)]
pub struct TmrStatus {
    pub divergences_detected: u32,
    pub last_divergence_address: u64,
    pub is_active: bool,
}

/// Status of the single-event-latchup protection.
#[derive(Debug, Clone, Copy, PartialEq, Eq, Structural)]
pub struct SelStatus {
    pub sel_detected: bool,
    pub sel_count: u32,
    pub last_sel_timestamp: u64,
    pub power_cycle_required: bool,
}

/// The TMR status held in a status register: divergence count in bits
/// 4..12, last divergence address in bits 0..16, active flag in bit 0.
pub fn decode_tmr_status(status: u32) -> (s: TmrStatus)
    ensures
        s == (TmrStatus {
            divergences_detected: (status >> 4u32) & 0xFFu32,
            last_divergence_address: (status & 0xFFFFu32) as u64,
            is_active: (status & 1u32) != 0,
        }),
{
    TmrStatus {
        divergences_detected: (status >> 4u32) & 0xFF,
        last_divergence_address: (status & 0xFFFF) as u64,
        is_active: (status & 0x01) != 0,
    }
}

/// The SEL status held in a status register: detected flag in bit 0,
/// power-cycle flag in bit 1, event count in bits 8..16, timestamp in
/// bits 16..32.
pub fn decode_sel_status(status: u32) -> (s: SelStatus)
    ensures
        s == (SelStatus {
            sel_detected: (status & 1u32) != 0,
            sel_count: (status >> 8u32) & 0xFFu32,
            last_sel_timestamp: (status >> 16u32) as u64,
            power_cycle_required: (status & 2u32) != 0,
        }),
{
    SelStatus {
        sel_detected: (status & 0x01) != 0,
        sel_count: (status >> 8u32) & 0xFF,
        last_sel_timestamp: (status >> 16u32) as u64,
        power_cycle_required: (status & 0x02) != 0,
    }
}

/// Decoded fields stay within their bit widths.
pub proof fn lemma_status_fields_bounded(status: u32)
    ensures
        (status >> 4u32) & 0xFFu32 <= 255,
        (status >> 8u32) & 0xFFu32 <= 255,
        (status & 0xFFFFu32) <= 0xFFFF,
        (status >> 16u32) <= 0xFFFF,
{
    assert((status >> 4u32) & 0xFFu32 <= 255) by (bit_vector);
    assert((status >> 8u32) & 0xFFu32 <= 255) by (bit_vector);
    assert((status & 0xFFFFu32) <= 0xFFFF) by (bit_vector);
    assert((status >> 16u32) <= 0xFFFF) by (bit_vector);
}

} // verus!

verus! {

/// A sysfs attribute read as an unsigned integer: its text without the
/// surrounding white space, as `u64::from_str` reads it.
pub fn parse_sysfs_u64(text: &str) -> (r: Option<u64>)
    ensures
        match r {
            Some(v) => spec_parse_unsigned(trim_ws(text@), u64::MAX as nat) == Some(v as nat),
            None => spec_parse_unsigned(trim_ws(text@), u64::MAX as nat) is None,
        },
{
    let cs = chars_of(text);
    let t = trim_chars(cs.as_slice());
    parse_unsigned(t.as_slice(), u64::MAX)
}

/// A sysfs attribute read as a signed integer: its text without the
/// surrounding white space, as `i64::from_str` reads it.
pub fn parse_sysfs_i64(text: &str) -> (r: Option<i64>)
    ensures
        match r {
            Some(v) => spec_parse_i64(trim_ws(text@)) == Some(v as int),
            None => spec_parse_i64(trim_ws(text@)) is None,
        },
{
    let cs = chars_of(text);
    let t = trim_chars(cs.as_slice());
    parse_i64(t.as_slice())
}

/// The operating range of the SoC inside the rover on Mars, -40 °C to
/// +50 °C, in millidegrees.
pub open spec fn in_mars_operating_range(millidegrees: int) -> bool {
    -40_000 <= millidegrees <= 50_000
}

/// Whether a SoC temperature in millidegrees is within the Mars
/// operating range.
pub fn within_mars_operational_range(millidegrees: i64) -> (r: bool)
    ensures
        r == in_mars_operating_range(millidegrees as int),
{
    -40_000 <= millidegrees && millidegrees <= 50_000
}

/// Throttling is due when the SoC is hotter than the limit (both in
/// millidegrees).
pub fn throttling_due(current_millidegrees: i64, max_millidegrees: i64) -> (r: bool)
    ensures
        r == (current_millidegrees > max_millidegrees),
{
    current_millidegrees > max_millidegrees
}

/// Whether a board, by its device-tree model, runs its cores in lockstep:
/// the i.MX8 and the Raspberry Pi boards.
pub fn model_runs_lockstep(model: &str) -> (r: bool)
    ensures
        r == (contains_text(model@, "i.MX8"@) || contains_text(model@, "Raspberry Pi"@)),
{
    str_contains(model, "i.MX8") || str_contains(model, "Raspberry Pi")
}

/// Whether the LEON watchdog status register says it is armed (bit 0).
pub fn leon_watchdog_armed(status: u32) -> (r: bool)
    ensures
        r == (status % 2 == 1),
{
    assert((status & 1) != 0 <==> status % 2 == 1) by (bit_vector);
    (status & 1) != 0
}

} // verus!
