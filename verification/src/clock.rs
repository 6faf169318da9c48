//! Points in time and the spans between them.
//!
//! A point in time is a count of nanoseconds since the Unix epoch.
use chrono::Utc;
use vstd::prelude::*;

verus! {

/// Nanoseconds in a millisecond.
pub const NANOS_PER_MILLI: i64 = 1_000_000;

/// Nanoseconds in a second.
pub const NANOS_PER_SECOND: i64 = 1_000_000_000;

/// Nanoseconds in a minute.
pub const NANOS_PER_MINUTE: i64 = 60_000_000_000;

/// The latest point in time to which ten minutes can still be added.
pub const LATEST_INSTANT: i64 = 9_223_371_436_854_775_807;

/// The span `nanos` in whole units, the fraction cut off towards zero.
pub open spec fn whole_units(nanos: int, unit: int) -> int {
    if nanos >= 0 {
        nanos / unit
    } else {
        -((-nanos) / unit)
    }
}

/// The span from `earlier` to `later`, zero where `later` comes first.
pub open spec fn elapsed(earlier: int, later: int) -> int {
    if later >= earlier {
        later - earlier
    } else {
        0
    }
}

/// The signed span from `earlier` to `later` in whole units.
pub fn span_in(earlier: i64, later: i64, unit: i64) -> (result: i64)
    requires
        unit >= 2,
    ensures
        result == whole_units(later - earlier, unit as int),
{
    if later >= earlier {
        let nanos: u64 = elapsed_nanos(earlier, later);
        assert(nanos as int / unit as int <= i64::MAX) by (nonlinear_arith)
            requires
                nanos <= u64::MAX,
                unit >= 2,
        ;
        (nanos / (unit as u64)) as i64
    } else {
        let nanos: u64 = elapsed_nanos(later, earlier);
        assert(nanos as int / unit as int <= i64::MAX) by (nonlinear_arith)
            requires
                nanos <= u64::MAX,
                unit >= 2,
        ;
        0 - ((nanos / (unit as u64)) as i64)
    }
}

/// The nanoseconds from `earlier` to `later`, zero where `later` comes first.
pub fn elapsed_nanos(earlier: i64, later: i64) -> (result: u64)
    ensures
        result == elapsed(earlier as int, later as int),
{
    if later >= earlier {
        ((later as i128) - (earlier as i128)) as u64
    } else {
        0
    }
}

/// `chrono::Utc::now` and `DateTime::timestamp_millis`: the wall clock in
/// milliseconds since the Unix epoch. The reading rests on the machine, so nothing is
/// claimed of it.
#[verifier::external_body]
pub(crate) fn wall_clock_millis() -> (result: i64) {
    Utc::now().timestamp_millis()
}

/// The whole seconds since the Unix epoch that a clock reading in milliseconds stands
/// for. A clock that is set before the epoch counts as standing at it.
pub open spec fn epoch_seconds(millis: i64) -> int {
    if millis >= 0 {
        millis as int / 1000
    } else {
        0
    }
}

/// The whole seconds since the Unix epoch that a clock reading in milliseconds stands
/// for.
pub fn seconds_since_epoch(millis: i64) -> (result: u64)
    ensures
        result == epoch_seconds(millis),
{
    if millis >= 0 {
        (millis as u64) / 1000
    } else {
        0
    }
}

/// A later reading of the clock never stands for fewer seconds.
pub proof fn lemma_seconds_never_go_back(earlier: i64, later: i64)
    requires
        earlier <= later,
    ensures
        epoch_seconds(earlier) <= epoch_seconds(later),
{
}

/// A span lies between its whole units and one unit more, away from zero, and the span back
/// counts the same with the other sign.
pub proof fn lemma_whole_units_bracket_the_span(nanos: int, unit: int)
    requires
        unit > 0,
    ensures
        nanos >= 0 ==> whole_units(nanos, unit) * unit <= nanos < (whole_units(nanos, unit) + 1)
            * unit,
        nanos <= 0 ==> (whole_units(nanos, unit) - 1) * unit < nanos <= whole_units(nanos, unit)
            * unit,
        whole_units(-nanos, unit) == -whole_units(nanos, unit),
{
    let span = if nanos >= 0 {
        nanos
    } else {
        -nanos
    };
    let whole = span / unit;
    assert(whole * unit <= span < (whole + 1) * unit) by (nonlinear_arith)
        requires
            whole == span / unit,
            unit > 0,
    ;
    assert((-whole) * unit == -(whole * unit)) by (nonlinear_arith);
    assert((-whole - 1) * unit == -((whole + 1) * unit)) by (nonlinear_arith);
    if nanos == 0 {
        assert(whole == 0) by (nonlinear_arith)
            requires
                whole == 0int / unit,
                unit > 0,
        ;
    }
}

/// Time that has passed adds up, is never negative, and is none where the clock went back.
pub proof fn lemma_elapsed_adds_up(a: int, b: int, c: int)
    ensures
        elapsed(a, b) >= 0,
        a <= b <= c ==> elapsed(a, c) == elapsed(a, b) + elapsed(b, c),
        b <= a ==> elapsed(a, b) == 0,
        a <= b ==> a + elapsed(a, b) == b,
{
}

/// A reading of the clock lies in the second that it stands for; one before the epoch
/// counts as the epoch.
pub proof fn lemma_second_holds_the_reading(millis: i64)
    ensures
        millis >= 0 ==> epoch_seconds(millis) * 1000 <= millis < (epoch_seconds(millis) + 1) * 1000,
        millis <= 0 ==> epoch_seconds(millis) == 0,
        NANOS_PER_SECOND == 1000 * NANOS_PER_MILLI,
        NANOS_PER_MINUTE == 60 * NANOS_PER_SECOND,
        NANOS_PER_MILLI == 1000 * 1000,
{
}

} // verus!
