use cpnews::util::time_from_utc_seconds;

#[test]
fn epoch_sample_is_utc_fixed() {
    assert_eq!(time_from_utc_seconds(1_700_000_000), "2023-11-14 22:13");
}

#[test]
fn epoch_zero() {
    assert_eq!(time_from_utc_seconds(0), "1970-01-01 00:00");
}

#[test]
fn epoch_negative() {
    assert_eq!(time_from_utc_seconds(-1), "1969-12-31 23:59");
}

#[test]
fn conversion_is_deterministic() {
    let a = time_from_utc_seconds(1_431_648_000);
    let b = time_from_utc_seconds(1_431_648_000);
    assert_eq!(a, b);
    assert_eq!(a, "2015-05-15 00:00");
    assert_eq!(a.chars().count(), 16);
}
