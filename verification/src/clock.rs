//! One host clock reading, projected into ordinary library values: instants
//! as signed 100 ns ticks since the Unix epoch, and local calendar components.
use crate::fault::Fault;
use crate::types::{Type, TypeView};
use crate::value::{lemma_value_views, value_views, Value, ValueView};
use chrono::{Datelike, Offset, Timelike};
use vstd::prelude::*;

verus! {

/// Ticks per second: one tick is 100 ns.
pub const TICKS_PER_SECOND: i64 = 10_000_000;

/// A calendar reading at a fixed offset from UTC, as chrono's `Datelike` and
/// `Timelike` accessors report it.
#[derive(Debug, Clone, Copy, PartialEq, Eq, Structural)]
pub struct CalendarFields {
    pub year: i32,
    pub month: u32,
    pub day: u32,
    pub hour: u32,
    pub minute: u32,
    pub second: u32,
    pub nanosecond: u32,
    pub offset_seconds: i32,
}

/// The ranges chrono documents for each accessor (the nanosecond passes
/// 999,999,999 only inside a leap second).
pub open spec fn fields_in_range(f: CalendarFields) -> bool {
    &&& 1 <= f.month <= 12
    &&& 1 <= f.day <= 31
    &&& f.hour <= 23
    &&& f.minute <= 59
    &&& f.second <= 59
    &&& f.nanosecond <= 1_999_999_999
    &&& -86_400 < f.offset_seconds < 86_400
}

/// Whether chrono's calendar holds the instant of a timestamp
/// (`DateTime::from_timestamp` gives `Some`): its day, counted from the
/// start of the Common Era, lies between those of `NaiveDate::MIN` (January
/// 1 of the ISO year -262143) and `NaiveDate::MAX` (December 31, 262142), and
/// a nanosecond count of a second or more, which marks a leap second, comes
/// only at the last second of a minute.
pub open spec fn timestamp_representable(secs: i64, nanos: u32) -> bool {
    let days = secs as int / 86_400 + 719_163;
    let rest = secs as int % 86_400;
    &&& -95_746_129 <= days <= 95_745_399
    &&& nanos < 2_000_000_000
    &&& nanos >= 1_000_000_000 ==> rest % 60 == 59
}

/// Whether chrono's calendar holds the instant of a timestamp
/// (`DateTime::from_timestamp(..).is_some()`); the claim restates the checks
/// of `DateTime::from_timestamp`, `NaiveDate::from_num_days_from_ce_opt` and
/// `NaiveTime::from_num_seconds_from_midnight_opt`.
#[verifier::external_body]
fn representable(secs: i64, nanos: u32) -> (b: bool)
    ensures
        b == timestamp_representable(secs, nanos),
{
    chrono::DateTime::from_timestamp(secs, nanos).is_some()
}

/// The calendar reading of an instant in the host's local time zone
/// (`DateTime::from_timestamp`, then `with_timezone(&Local)` and the
/// accessors). It depends on the machine's time zone, so only the documented
/// ranges of the accessors are stated.
#[verifier::external_body]
fn local_fields(secs: i64, nanos: u32) -> (f: CalendarFields)
    requires
        timestamp_representable(secs, nanos),
    ensures
        fields_in_range(f),
{
    let local = chrono::DateTime::from_timestamp(secs, nanos).unwrap().with_timezone(&chrono::Local);
    CalendarFields {
        year: local.year(),
        month: local.month(),
        day: local.day(),
        hour: local.hour(),
        minute: local.minute(),
        second: local.second(),
        nanosecond: local.nanosecond(),
        offset_seconds: local.offset().fix().local_minus_utc(),
    }
}

/// The tick count of a timestamp, floored to 100 ns; `None` inside a leap
/// second or outside the `i64` range.
pub open spec fn spec_ticks(secs: i64, nanos: u32) -> Option<int> {
    let ticks = secs * 10_000_000 + nanos / 100;
    if nanos >= 1_000_000_000 || secs * 10_000_000 < i64::MIN || secs * 10_000_000 > i64::MAX
        || ticks < i64::MIN || ticks > i64::MAX {
        None
    } else {
        Some(ticks)
    }
}

/// The ticks of a UTC instant given as whole seconds since the epoch and
/// subsecond nanoseconds.
pub fn instant_ticks(secs: i64, nanos: u32) -> (r: Result<i64, Fault>)
    ensures
        match spec_ticks(secs, nanos) {
            Some(t) => r == Ok::<i64, Fault>(t as i64),
            None => r matches Err(f) && f.message@ == if nanos >= 1_000_000_000 {
                "leap-second clock reading is unsupported"@
            } else {
                "system time is outside the supported Instant range"@
            },
        },
{
    if nanos >= 1_000_000_000 {
        return Err(Fault::new("leap-second clock reading is unsupported"));
    }
    let scaled = match secs.checked_mul(TICKS_PER_SECOND) {
        Some(scaled) => scaled,
        None => return Err(Fault::new("system time is outside the supported Instant range")),
    };
    match scaled.checked_add((nanos / 100) as i64) {
        Some(ticks) => Ok(ticks),
        None => Err(Fault::new("system time is outside the supported Instant range")),
    }
}

/// The whole seconds and subsecond nanoseconds of a tick count, by floor
/// division so that instants before the epoch keep their position.
pub open spec fn split_ticks_spec(ticks: i64) -> (i64, u32) {
    ((ticks / 10_000_000) as i64, ((ticks % 10_000_000) * 100) as u32)
}

pub fn split_ticks(ticks: i64) -> (r: (i64, u32))
    ensures
        r == split_ticks_spec(ticks),
        r.0 * 10_000_000 + r.1 / 100 == ticks,
        r.1 < 1_000_000_000,
{
    let mut secs = ticks / TICKS_PER_SECOND;
    let mut rest = ticks % TICKS_PER_SECOND;
    if rest < 0 {
        secs = secs - 1;
        rest = rest + TICKS_PER_SECOND;
    }
    (secs, (rest * 100) as u32)
}

/// The year range, and the non-leap nanoseconds, that dates and times carry.
pub open spec fn supported(f: CalendarFields) -> bool {
    1 <= f.year <= 9999 && f.nanosecond < 1_000_000_000
}

/// The components of a calendar reading as the managed Int32 array
/// `[year, month, day, hour, minute, second, ticks, offset seconds]`.
pub open spec fn component_values(f: CalendarFields) -> Seq<ValueView> {
    seq![
        ValueView::Int32(f.year),
        ValueView::Int32(f.month as i32),
        ValueView::Int32(f.day as i32),
        ValueView::Int32(f.hour as i32),
        ValueView::Int32(f.minute as i32),
        ValueView::Int32(f.second as i32),
        ValueView::Int32((f.nanosecond / 100) as i32),
        ValueView::Int32(f.offset_seconds),
    ]
}

/// Projects a calendar reading into library values, refusing years outside
/// 1..=9999 and leap-second readings.
pub fn components(f: CalendarFields) -> (r: Result<Value, Fault>)
    requires
        fields_in_range(f),
    ensures
        supported(f) ==> (r matches Ok(v) && v@ == (ValueView::Array {
            element: TypeView::Int32,
            elements: component_values(f),
        })),
        !supported(f) ==> (r matches Err(e) && e.message@
            == "system local time is outside the supported Date/Time range"@),
{
    if !(1 <= f.year && f.year <= 9999) || f.nanosecond >= 1_000_000_000 {
        return Err(Fault::new("system local time is outside the supported Date/Time range"));
    }
    let mut elements: Vec<Value> = Vec::new();
    elements.push(Value::Int32(f.year));
    elements.push(Value::Int32(f.month as i32));
    elements.push(Value::Int32(f.day as i32));
    elements.push(Value::Int32(f.hour as i32));
    elements.push(Value::Int32(f.minute as i32));
    elements.push(Value::Int32(f.second as i32));
    elements.push(Value::Int32((f.nanosecond / 100) as i32));
    elements.push(Value::Int32(f.offset_seconds));
    proof {
        lemma_value_views(elements@, elements@.len());
        assert(value_views(elements@, elements@.len()) =~= component_values(f));
    }
    Ok(Value::Array { element: Type::Int32, elements })
}

/// The local calendar components of an instant given in ticks.
pub fn local_at(ticks: i64) -> (r: Result<Value, Fault>)
    ensures
        (r matches Err(e) && e.message@ == "instant is outside the supported calendar range"@)
            <==> !timestamp_representable(split_ticks_spec(ticks).0, split_ticks_spec(ticks).1),
        r matches Err(e) ==> (timestamp_representable(split_ticks_spec(ticks).0, split_ticks_spec(ticks).1)
            ==> e.message@ == "system local time is outside the supported Date/Time range"@),
        r matches Ok(v) ==> (exists|f: CalendarFields|
            fields_in_range(f) && supported(f) && v@ == (ValueView::Array {
                element: TypeView::Int32,
                elements: component_values(f),
            })),
{
    let (secs, nanos) = split_ticks(ticks);
    if !representable(secs, nanos) {
        return Err(Fault::new("instant is outside the supported calendar range"));
    }
    let fields = local_fields(secs, nanos);
    proof {
        reveal_strlit("instant is outside the supported calendar range");
        reveal_strlit("system local time is outside the supported Date/Time range");
        assert("instant is outside the supported calendar range"@[0] != "system local time is outside the supported Date/Time range"@[0]);
    }
    components(fields)
}

} // verus!
