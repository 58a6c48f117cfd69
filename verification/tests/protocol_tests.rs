use batteryremainingd::protocol::{decode_request, encode_request, no_data_reply};

#[test]
fn encode_plain_and_charging() {
    assert_eq!(encode_request("%H:%M", false), "%H:%M");
    assert_eq!(encode_request("%H:%M", true), "+%H:%M");
}

#[test]
fn round_trip() {
    for (fmt, charging) in [("%m", false), ("%H:%M", true), ("[%p] %c%%", false), ("é %m", true)] {
        let wire = encode_request(fmt, charging);
        assert_eq!(decode_request(wire.as_bytes()), (fmt.to_string(), charging));
    }
}

#[test]
fn empty_format_means_minutes() {
    assert_eq!(decode_request(b""), ("%m".to_string(), false));
    assert_eq!(decode_request(b"+"), ("%m".to_string(), true));
}

#[test]
fn invalid_utf8_means_minutes() {
    assert_eq!(decode_request(&[0xff, 0x25, 0x48]), ("%m".to_string(), false));
    assert_eq!(decode_request(&[b'+', 0xc3]), ("%m".to_string(), false));
}

#[test]
fn multibyte_decoded() {
    assert_eq!(decode_request("+ü".as_bytes()), ("ü".to_string(), true));
}

#[test]
fn reply_without_samples() {
    assert_eq!(no_data_reply(), "no data");
}
