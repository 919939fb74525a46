//! Scan timeouts and deadlines, in whole seconds of the epoch counter.

use std::time::Duration;
use vstd::prelude::*;

verus! {

/// Longest timeout of a scan, in seconds. A scan without timeout gets this
/// one, so that adding it to the epoch counter stays far from the end of the
/// 64-bit range.
pub const DEFAULT_SCAN_TIMEOUT: u64 = 315_360_000;

/// The whole seconds of a duration.
pub uninterp spec fn duration_secs(d: Duration) -> u64;

/// The part of a duration below one second, in nanoseconds.
pub uninterp spec fn duration_subsec_nanos(d: Duration) -> u32;

/// `Duration::as_secs`: the number of whole seconds of the duration.
#[verifier::external_body]
pub(crate) fn whole_secs(d: &Duration) -> (secs: u64)
    ensures
        secs == duration_secs(*d),
{
    d.as_secs()
}

/// `Duration::subsec_nanos`: the fractional part of the duration in
/// nanoseconds.
#[verifier::external_body]
pub(crate) fn subsec_nanos(d: &Duration) -> (nanos: u32)
    ensures
        nanos == duration_subsec_nanos(*d),
{
    d.subsec_nanos()
}

/// A duration of `secs` whole seconds and `nanos` nanoseconds, in seconds,
/// rounded up.
pub open spec fn ceil_secs(secs: u64, nanos: u32) -> nat {
    if nanos > 0 {
        (secs + 1) as nat
    } else {
        secs as nat
    }
}

/// The timeout of a scan in seconds: the configured duration rounded up to
/// whole seconds, at most [`DEFAULT_SCAN_TIMEOUT`]; that maximum when no
/// timeout is configured.
pub open spec fn spec_timeout_secs(timeout: Option<Duration>) -> u64 {
    match timeout {
        Some(d) => {
            let secs = ceil_secs(duration_secs(d), duration_subsec_nanos(d));
            if secs < DEFAULT_SCAN_TIMEOUT {
                secs as u64
            } else {
                DEFAULT_SCAN_TIMEOUT
            }
        },
        None => DEFAULT_SCAN_TIMEOUT,
    }
}

/// The number of seconds that [`ceil_secs`] and the cap give for a duration
/// of `secs` whole seconds and `nanos` nanoseconds.
pub fn clamp_timeout(secs: u64, nanos: u32) -> (clamped: u64)
    ensures
        clamped == if ceil_secs(secs, nanos) < DEFAULT_SCAN_TIMEOUT {
            ceil_secs(secs, nanos)
        } else {
            DEFAULT_SCAN_TIMEOUT as nat
        },
        clamped <= DEFAULT_SCAN_TIMEOUT,
{
    if secs >= DEFAULT_SCAN_TIMEOUT {
        DEFAULT_SCAN_TIMEOUT
    } else if nanos > 0 {
        secs + 1
    } else {
        secs
    }
}

/// The timeout of a scan in seconds.
pub fn timeout_secs(timeout: Option<Duration>) -> (secs: u64)
    ensures
        secs == spec_timeout_secs(timeout),
        secs <= DEFAULT_SCAN_TIMEOUT,
{
    match timeout {
        Some(d) => clamp_timeout(whole_secs(&d), subsec_nanos(&d)),
        None => DEFAULT_SCAN_TIMEOUT,
    }
}

/// The deadline of a scan that starts at `epoch`: `timeout_secs` later, or
/// the end of the 64-bit range where that comes first.
pub open spec fn spec_deadline(epoch: u64, timeout_secs: u64) -> u64 {
    if epoch + timeout_secs <= u64::MAX {
        (epoch + timeout_secs) as u64
    } else {
        u64::MAX
    }
}

/// The deadline of a scan that starts at `epoch`.
pub fn deadline_for(epoch: u64, timeout_secs: u64) -> (deadline: u64)
    ensures
        deadline == spec_deadline(epoch, timeout_secs),
{
    if timeout_secs <= u64::MAX - epoch {
        epoch + timeout_secs
    } else {
        u64::MAX
    }
}

} // verus!
