use task_scheduler::duration::{decode_duration, encode_duration};

#[test]
fn encode_gives_wire_form() {
    assert_eq!(encode_duration(30), "PT30S");
    assert_eq!(encode_duration(0), "PT0S");
    assert_eq!(encode_duration(7), "PT7S");
    assert_eq!(encode_duration(12345), "PT12345S");
    assert_eq!(encode_duration(u64::MAX), "PT18446744073709551615S");
}

#[test]
fn decode_reads_wire_form() {
    assert_eq!(decode_duration("PT30S"), Some(30));
    assert_eq!(decode_duration("PT0S"), Some(0));
    assert_eq!(decode_duration("PT12345S"), Some(12345));
    assert_eq!(decode_duration("PT18446744073709551615S"), Some(u64::MAX));
}

#[test]
fn decode_accepts_leading_zeros() {
    assert_eq!(decode_duration("PT007S"), Some(7));
    assert_eq!(decode_duration("PT000S"), Some(0));
}

#[test]
fn decode_rejects_malformed_text() {
    assert_eq!(decode_duration(""), None);
    assert_eq!(decode_duration("PT"), None);
    assert_eq!(decode_duration("PTS"), None);
    assert_eq!(decode_duration("30S"), None);
    assert_eq!(decode_duration("PT30"), None);
    assert_eq!(decode_duration("PT3x0S"), None);
    assert_eq!(decode_duration("pt30s"), None);
    assert_eq!(decode_duration("PT-30S"), None);
    assert_eq!(decode_duration("P30S"), None);
}

#[test]
fn decode_rejects_values_past_u64() {
    assert_eq!(decode_duration("PT18446744073709551616S"), None);
    assert_eq!(decode_duration("PT99999999999999999999999S"), None);
}

#[test]
fn round_trip_keeps_whole_seconds() {
    for v in [0u64, 1, 9, 10, 59, 60, 3600, 86400, 123456789, u64::MAX] {
        assert_eq!(decode_duration(&encode_duration(v)), Some(v));
    }
}
