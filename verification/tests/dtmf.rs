use call_platform::dtmf::{
    encode, parse, Deduplicator, DtmfDigit, DtmfEvent, EncodeError, Notification, ParseError,
};

fn event(end: bool, duration: u16) -> DtmfEvent {
    DtmfEvent {
        digit: DtmfDigit::Five,
        end,
        reserved: false,
        volume: 10,
        duration,
    }
}

#[test]
fn telephone_event_round_trips() {
    let original = event(true, 160);
    assert_eq!(parse(&encode(original).unwrap()).unwrap(), original);
}

#[test]
fn duplicate_packets_emit_one_start_and_one_end() {
    let mut deduplicator = Deduplicator::default();
    assert_eq!(
        deduplicator.observe(event(false, 80)),
        Some(Notification::Started(DtmfDigit::Five))
    );
    assert_eq!(deduplicator.observe(event(false, 120)), None);
    assert_eq!(
        deduplicator.observe(event(true, 160)),
        Some(Notification::Ended {
            digit: DtmfDigit::Five,
            duration: 160
        })
    );
    assert_eq!(deduplicator.observe(event(true, 160)), None);
}

#[test]
fn end_only_packets_emit_once_and_duplicates_are_suppressed() {
    let mut deduplicator = Deduplicator::default();
    assert_eq!(
        deduplicator.observe(event(true, 160)),
        Some(Notification::Ended {
            digit: DtmfDigit::Five,
            duration: 160
        })
    );
    assert_eq!(deduplicator.observe(event(true, 200)), None);
}

#[test]
fn malformed_payloads_never_panic() {
    for length in 0..128 {
        let payload = vec![length as u8; length];
        let _ = parse(&payload);
    }
    assert!(matches!(
        parse(&[5, 0, 0, 1, 0]),
        Err(ParseError::InvalidLength)
    ));
}

#[test]
fn every_parse_error_has_an_input() {
    assert_eq!(parse(&[1, 2, 3]), Err(ParseError::TooShort));
    assert_eq!(parse(&[17, 0, 0, 1]), Err(ParseError::UnsupportedEvent(17)));
    assert_eq!(parse(&[1, 0, 0, 0]), Err(ParseError::InvalidDuration));
}

#[test]
fn flag_bits_and_duration_decode_exactly() {
    let decoded = parse(&[11, 0xc5, 0x01, 0x02]).unwrap();
    assert_eq!(decoded.digit, DtmfDigit::Pound);
    assert!(decoded.end);
    assert!(decoded.reserved);
    assert_eq!(decoded.volume, 5);
    assert_eq!(decoded.duration, 258);
    assert_eq!(encode(decoded).unwrap(), [11, 0xc5, 0x01, 0x02]);
}

#[test]
fn encode_rejects_out_of_range_volume_and_zero_duration() {
    let mut loud = event(false, 10);
    loud.volume = 64;
    assert_eq!(encode(loud), Err(EncodeError::InvalidVolume));
    assert_eq!(encode(event(false, 0)), Err(EncodeError::InvalidDuration));
}

#[test]
fn event_codes_cover_all_digits() {
    assert_eq!(DtmfDigit::Zero.event_code(), 0);
    assert_eq!(DtmfDigit::Star.event_code(), 10);
    assert_eq!(DtmfDigit::Flash.event_code(), 16);
    assert_eq!(parse(&[16, 0, 0, 1]).unwrap().digit, DtmfDigit::Flash);
}

#[test]
fn a_new_digit_restarts_and_end_of_other_digit_is_reported() {
    let mut deduplicator = Deduplicator::default();
    let mut other = event(false, 80);
    other.digit = DtmfDigit::One;
    assert_eq!(
        deduplicator.observe(event(false, 80)),
        Some(Notification::Started(DtmfDigit::Five))
    );
    assert_eq!(
        deduplicator.observe(other),
        Some(Notification::Started(DtmfDigit::One))
    );
}
