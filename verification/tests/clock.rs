use chrono::{DateTime, Datelike, FixedOffset, Offset, TimeZone, Timelike, Utc};
use neoclr::clock::{components, instant_ticks, local_at, split_ticks, CalendarFields};
use neoclr::types::Type;
use neoclr::value::Value;

fn fields<T: TimeZone>(now: DateTime<T>) -> CalendarFields {
    CalendarFields {
        year: now.year(),
        month: now.month(),
        day: now.day(),
        hour: now.hour(),
        minute: now.minute(),
        second: now.second(),
        nanosecond: now.nanosecond(),
        offset_seconds: now.offset().fix().local_minus_utc(),
    }
}

fn ticks_of(now: DateTime<Utc>) -> Result<i64, neoclr::Fault> {
    instant_ticks(now.timestamp(), now.timestamp_subsec_nanos())
}

#[test]
fn ticks_preserve_epoch_negative_instants_and_precision() {
    for (seconds, nanos, expected) in [
        (0, 0, 0),
        (0, 199, 1),
        (-1, 999_999_999, -1),
        (-1, 0, -10_000_000),
    ] {
        assert_eq!(
            ticks_of(DateTime::from_timestamp(seconds, nanos).unwrap()).unwrap(),
            expected
        );
    }
    assert!(local_at(i64::MAX).is_err());
    assert!(local_at(i64::MIN).is_err());
}

#[test]
fn one_instant_keeps_date_time_and_offset_consistent_across_midnight() {
    let utc = Utc
        .with_ymd_and_hms(2024, 2, 29, 23, 30, 45)
        .unwrap()
        .with_nanosecond(123_456_789)
        .unwrap();
    for (offset, expected) in [
        (7200, [2024, 3, 1, 1, 30, 45, 1_234_567, 7200]),
        (-3600, [2024, 2, 29, 22, 30, 45, 1_234_567, -3600]),
    ] {
        let local = utc.with_timezone(&FixedOffset::east_opt(offset).unwrap());
        assert_eq!(
            components(fields(local)).unwrap(),
            Value::Array {
                element: Type::Int32,
                elements: expected.into_iter().map(Value::Int32).collect()
            }
        );
    }
    assert!(components(fields(Utc.with_ymd_and_hms(0, 1, 1, 0, 0, 0).unwrap())).is_err());
    assert!(components(fields(Utc.with_ymd_and_hms(10000, 1, 1, 0, 0, 0).unwrap())).is_err());
}

#[test]
fn leap_seconds_and_overflow_are_refused() {
    assert_eq!(
        instant_ticks(59, 1_000_000_000).unwrap_err().message,
        "leap-second clock reading is unsupported"
    );
    assert_eq!(
        instant_ticks(i64::MAX, 0).unwrap_err().message,
        "system time is outside the supported Instant range"
    );
    assert_eq!(
        local_at(i64::MAX).unwrap_err().message,
        "system local time is outside the supported Date/Time range"
    );
}

#[test]
fn ticks_split_by_floor_division() {
    assert_eq!(split_ticks(0), (0, 0));
    assert_eq!(split_ticks(1), (0, 100));
    assert_eq!(split_ticks(-1), (-1, 999_999_900));
    assert_eq!(split_ticks(-10_000_000), (-1, 0));
    assert_eq!(split_ticks(25_000_001), (2, 500_000_100));
}

#[test]
fn local_readings_have_eight_int32_components() {
    match local_at(0).unwrap() {
        Value::Array { element, elements } => {
            assert_eq!(element, Type::Int32);
            assert_eq!(elements.len(), 8);
        }
        other => panic!("unexpected {other:?}"),
    }
}
