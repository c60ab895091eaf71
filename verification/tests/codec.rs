use chrono::{DateTime, NaiveDate, NaiveDateTime, NaiveTime, Utc};
use ntp_timestamp::{convert_raw_ntp_timestamp_to_utc, NTPTimestamp, UtcInstant};

#[test]
fn test_ntp_timestamps() {
    let dt = NaiveDateTime::new(
        NaiveDate::from_ymd_opt(2022, 6, 20).unwrap(),
        NaiveTime::from_hms_micro_opt(8, 12, 30, 9000).unwrap(),
    );
    let now = DateTime::<Utc>::from_naive_utc_and_offset(dt, Utc);
    let instant = UtcInstant {
        secs: now.timestamp(),
        nanos: now.timestamp_subsec_nanos(),
    };
    let ntp_time: NTPTimestamp = NTPTimestamp::from_instant(instant);
    assert_eq!(
        ntp_time,
        NTPTimestamp {
            seconds: 3864701550,
            fraction: 38654705
        }
    );

    let back = convert_raw_ntp_timestamp_to_utc(ntp_time.into());
    let back_dt = DateTime::<Utc>::from_timestamp(back.secs, back.nanos).unwrap();
    let delta = now - back_dt;
    assert!(delta.num_nanoseconds().unwrap().abs() <= 1);
}

#[test]
fn reference_vector_from_plain_instant() {
    // 2022-06-20T08:12:30.009000 UTC is 1655712750 s after the Unix epoch.
    let instant = UtcInstant {
        secs: 1_655_712_750,
        nanos: 9_000_000,
    };
    let ntp = NTPTimestamp::from_instant(instant);
    assert_eq!(ntp.seconds, 3_864_701_550);
    assert_eq!(ntp.fraction, 38_654_705);
    assert_eq!(u64::from(ntp), (3_864_701_550u64 << 32) | 38_654_705u64);
}

#[test]
fn zero_fraction_decodes_to_zero_nanos() {
    let back = convert_raw_ntp_timestamp_to_utc(3_864_701_550u64 << 32);
    assert_eq!(back.secs, 1_655_712_750);
    assert_eq!(back.nanos, 0);
}

#[test]
fn max_fraction_stays_below_one_second() {
    let back = convert_raw_ntp_timestamp_to_utc((3_864_701_550u64 << 32) | 0xFFFF_FFFFu64);
    assert_eq!(back.secs, 1_655_712_750);
    assert_eq!(back.nanos, 999_999_999);
    assert!(back.nanos < 1_000_000_000);
}

#[test]
fn round_trip_within_one_nanosecond() {
    let cases: [(i64, u32); 6] = [
        (1_655_712_750, 9_000_000),
        (1_655_712_750, 0),
        (1_655_712_750, 999_999_999),
        (0, 500_000_000),
        (-600_000_000, 123_456_789),
        (-2_208_988_800, 1),
    ];
    for (secs, nanos) in cases {
        let instant = UtcInstant { secs, nanos };
        let back = convert_raw_ntp_timestamp_to_utc(NTPTimestamp::from_instant(instant).into());
        assert_eq!(back.secs, secs);
        let delta = nanos as i64 - back.nanos as i64;
        assert!(delta == 0 || delta == 1);
    }
}

#[test]
fn packed_values_are_monotonic() {
    let a = UtcInstant {
        secs: 1_655_712_750,
        nanos: 9_000_000,
    };
    let b = UtcInstant {
        secs: 1_655_712_750,
        nanos: 9_000_001,
    };
    let c = UtcInstant {
        secs: 1_655_712_751,
        nanos: 0,
    };
    let pa = u64::from(NTPTimestamp::from_instant(a));
    let pb = u64::from(NTPTimestamp::from_instant(b));
    let pc = u64::from(NTPTimestamp::from_instant(c));
    assert!(pa < pb);
    assert!(pb < pc);
}

#[test]
fn reencoding_exact_fraction_is_lossless() {
    // Fractions that are multiples of 2^23 scale to a whole number of
    // nanoseconds, so decoding and re-encoding reproduces the packed
    // value bit for bit.
    let packed = (3_864_701_550u64 << 32) | (191u64 * 0x80_0000);
    let back = convert_raw_ntp_timestamp_to_utc(packed);
    let again = u64::from(NTPTimestamp::from_instant(back));
    assert_eq!(again, packed);
}

#[test]
fn reencoding_inexact_fraction_rounds_down() {
    // A single fraction unit is far below one nanosecond: it decodes to a
    // zero remainder and so re-encodes to a zero fraction.
    let packed = (3_864_701_550u64 << 32) | 1u64;
    let back = convert_raw_ntp_timestamp_to_utc(packed);
    assert_eq!(back.nanos, 0);
    let again = u64::from(NTPTimestamp::from_instant(back));
    assert_eq!(again, 3_864_701_550u64 << 32);
}

#[test]
fn seconds_wrap_outside_the_era() {
    // One second before 1900 folds to the top of the 32-bit field.
    let before_1900 = UtcInstant {
        secs: -2_208_988_801,
        nanos: 0,
    };
    assert_eq!(NTPTimestamp::from_instant(before_1900).seconds, 4_294_967_295);

    // One full era after the era start folds back to zero.
    let after_rollover = UtcInstant {
        secs: 4_294_967_296 - 2_208_988_800,
        nanos: 0,
    };
    assert_eq!(NTPTimestamp::from_instant(after_rollover).seconds, 0);
}

#[test]
fn decode_before_unix_epoch_is_negative() {
    // Seconds field 0 is the NTP epoch itself, 1900-01-01T00:00:00Z.
    let back = convert_raw_ntp_timestamp_to_utc(0);
    assert_eq!(back.secs, -2_208_988_800);
    assert_eq!(back.nanos, 0);
}
