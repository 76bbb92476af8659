use msg_harvester::digits::{parse_u64, u64_to_string};
use msg_harvester::snowflake::{
    snowflake_parts, snowflake_to_unix_ms, snowflake_to_unix_secs, unix_ms_to_snowflake,
    SnowflakeError,
};

#[test]
fn parse_u64_accepts_decimals() {
    assert_eq!(parse_u64("0"), Some(0));
    assert_eq!(parse_u64("42"), Some(42));
    assert_eq!(parse_u64("18446744073709551615"), Some(u64::MAX));
}

#[test]
fn parse_u64_rejects_bad_input() {
    assert_eq!(parse_u64(""), None);
    assert_eq!(parse_u64("12a"), None);
    assert_eq!(parse_u64("-3"), None);
    assert_eq!(parse_u64("18446744073709551616"), None);
}

#[test]
fn format_then_parse_round_trips() {
    for n in [0u64, 7, 10, 99, 1000, 1420070400000, u64::MAX] {
        let s = u64_to_string(n);
        assert_eq!(parse_u64(&s), Some(n));
    }
    assert_eq!(u64_to_string(0), "0");
    assert_eq!(u64_to_string(175928847299117063), "175928847299117063");
}

#[test]
fn known_snowflake_decodes_to_known_instant() {
    // The identifier from the platform's own documentation.
    assert_eq!(snowflake_to_unix_ms("175928847299117063"), Ok(1462015105796));
    assert_eq!(snowflake_to_unix_secs("175928847299117063"), Ok(1462015105));
}

#[test]
fn malformed_snowflake_is_rejected() {
    assert_eq!(snowflake_to_unix_ms(""), Err(SnowflakeError::InvalidNumber));
    assert_eq!(snowflake_to_unix_ms("abc"), Err(SnowflakeError::InvalidNumber));
    assert_eq!(
        snowflake_to_unix_ms("99999999999999999999999"),
        Err(SnowflakeError::InvalidNumber)
    );
}

#[test]
fn snowflake_round_trip() {
    // Encoding then decoding yields back the exact triple.
    let cases = [
        (1420070400000i64, 0u16, 0u16),
        (1462015105796, 5, 7),
        (1700000000000, 1023, 4095),
        (1420070400001, 1, 1),
    ];
    for (ts_ms, wid, seq) in cases {
        let s = unix_ms_to_snowflake(ts_ms, wid, seq).unwrap();
        assert_eq!(snowflake_to_unix_ms(&s), Ok(ts_ms));
        let id = parse_u64(&s).unwrap();
        let (off, w, q) = snowflake_parts(id);
        assert_eq!(off as i64 + 1420070400000, ts_ms);
        assert_eq!(w, wid);
        assert_eq!(q, seq);
    }
}

#[test]
fn encode_rejects_out_of_range_inputs() {
    assert_eq!(
        unix_ms_to_snowflake(1420070399999, 0, 0),
        Err(SnowflakeError::BeforeEpoch)
    );
    assert_eq!(
        unix_ms_to_snowflake(1462015105796, 1024, 0),
        Err(SnowflakeError::WorkerIdTooLarge)
    );
    assert_eq!(
        unix_ms_to_snowflake(1462015105796, 0, 4096),
        Err(SnowflakeError::SequenceTooLarge)
    );
    assert_eq!(
        unix_ms_to_snowflake(1420070400000 + 0x400_0000_0000, 0, 0),
        Err(SnowflakeError::TimestampTooLarge)
    );
}
