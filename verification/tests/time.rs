use msi::time::{filetime_from_system_time, system_time_from_filetime, UnixTime};
use std::time::{Duration, UNIX_EPOCH};

#[test]
fn to_system_time() {
    let sat_2017_mar_18_at_18_46_36_gmt = UnixTime::from_system_time(UNIX_EPOCH + Duration::from_secs(1489862796));
    assert_eq!(system_time_from_filetime(131343363960000000), sat_2017_mar_18_at_18_46_36_gmt);
}

#[test]
fn from_system_time() {
    let sat_2017_mar_18_at_18_46_36_gmt = UnixTime::from_system_time(UNIX_EPOCH + Duration::from_secs(1489862796));
    assert_eq!(filetime_from_system_time(sat_2017_mar_18_at_18_46_36_gmt), 131343363960000000);
}

#[test]
fn filetime_round_trip() {
    for filetime in [0u64, 116444736000000000, 131343363960000000, 116302906200000000] {
        assert_eq!(filetime_from_system_time(system_time_from_filetime(filetime)), filetime);
    }
}

#[test]
fn filetime_before_unix_epoch() {
    let time = UnixTime::from_system_time(UNIX_EPOCH - Duration::from_secs(14182980));
    assert_eq!(filetime_from_system_time(time), 116302906200000000);
}
