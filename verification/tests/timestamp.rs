use msi::time::UnixTime;
use msi::timestamp::{
    duration_to_timestamp_delta, system_time_from_timestamp, timestamp_delta_to_duration,
    timestamp_from_system_time, Timestamp, UNIX_EPOCH_TIMESTAMP,
};
use std::time::{Duration, UNIX_EPOCH};

#[test]
fn extreme_timestamp_delta() {
    // The maximum representable Windows timestamp:
    let timestamp = u64::MAX;
    let (secs, nanos) = timestamp_delta_to_duration(timestamp);
    let duration = Duration::new(secs, nanos);
    assert_eq!(duration.as_secs(), 1844674407370);
    assert_eq!(duration.subsec_nanos(), 955161500);
    assert_eq!(duration_to_timestamp_delta(duration.as_secs(), duration.subsec_nanos()), timestamp);
}

#[test]
fn extreme_duration() {
    // The maximum representable duration:
    let duration = Duration::new(u64::MAX, 999_999_999);
    // This duration will not fit in a 64-bit Windows timestamp delta.
    // Rather than overflow, we should return a saturated result.
    assert_eq!(duration_to_timestamp_delta(duration.as_secs(), duration.subsec_nanos()), u64::MAX);
}

#[test]
fn unix_epoch() {
    let epoch = UnixTime::from_system_time(UNIX_EPOCH);
    assert_eq!(UNIX_EPOCH_TIMESTAMP, timestamp_from_system_time(epoch));
    assert_eq!(system_time_from_timestamp(UNIX_EPOCH_TIMESTAMP), epoch);
}

#[test]
fn after_unix_epoch() {
    let sat_18_mar_2017_at_18_46_36_utc = UnixTime::from_system_time(UNIX_EPOCH + Duration::from_secs(1489862796));
    assert_eq!(timestamp_from_system_time(sat_18_mar_2017_at_18_46_36_utc), 131343363960000000,);
    assert_eq!(system_time_from_timestamp(131343363960000000), sat_18_mar_2017_at_18_46_36_utc);
}

#[test]
fn before_unix_epoch() {
    let sun_20_jul_1969_at_20_17_00_utc = UnixTime::from_system_time(UNIX_EPOCH - Duration::from_secs(14182980));
    assert_eq!(timestamp_from_system_time(sun_20_jul_1969_at_20_17_00_utc), 116302906200000000,);
    assert_eq!(system_time_from_timestamp(116302906200000000), sun_20_jul_1969_at_20_17_00_utc);
}

#[test]
fn extreme_timestamps() {
    // The extremes of the range convert without overflow.
    let min_time = system_time_from_timestamp(u64::MIN);
    let max_time = system_time_from_timestamp(u64::MAX);
    assert!(!min_time.after && max_time.after);
    assert_eq!(min_time.secs, 11644473600);
    assert_eq!(max_time.secs, 1844674407370 - 11644473600);
}

#[test]
fn delta_round_trip() {
    for delta in [0u64, 1, 9_999_999, 10_000_000, 131343363960000000] {
        let (secs, nanos) = timestamp_delta_to_duration(delta);
        assert_eq!(duration_to_timestamp_delta(secs, nanos), delta);
    }
}

#[test]
fn timestamp_bytes() {
    let timestamp = Timestamp(131343363960000000);
    let mut out = Vec::new();
    timestamp.write_to(&mut out);
    assert_eq!(out, vec![0, 206, 112, 248, 23, 160, 210, 1]);
    let (back, next) = Timestamp::read_from(&out, 0).unwrap();
    assert_eq!(back, timestamp);
    assert_eq!(next, 8);
    assert!(Timestamp::read_from(&out[..7], 0).is_err());
}

#[test]
fn timestamp_system_time() {
    let time = UnixTime::from_system_time(UNIX_EPOCH + Duration::from_secs(1489862796));
    let timestamp = Timestamp::from_system_time(time);
    assert_eq!(timestamp, Timestamp(131343363960000000));
    assert_eq!(timestamp.to_system_time(), time);
}
