//! RFC 4733 telephone-event parsing, generation, and duplicate suppression.

use vstd::prelude::*;

verus! {

/// One telephone-event digit (RFC 4733 event codes 0 through 16).
#[derive(Clone, Copy, Debug, PartialEq, Eq, Hash, Structural)]
pub enum DtmfDigit {
    Zero,
    One,
    Two,
    Three,
    Four,
    Five,
    Six,
    Seven,
    Eight,
    Nine,
    Star,
    Pound,
    A,
    B,
    C,
    D,
    Flash,
}

/// The RFC 4733 event code of a digit.
pub open spec fn digit_code(digit: DtmfDigit) -> u8 {
    match digit {
        DtmfDigit::Zero => 0,
        DtmfDigit::One => 1,
        DtmfDigit::Two => 2,
        DtmfDigit::Three => 3,
        DtmfDigit::Four => 4,
        DtmfDigit::Five => 5,
        DtmfDigit::Six => 6,
        DtmfDigit::Seven => 7,
        DtmfDigit::Eight => 8,
        DtmfDigit::Nine => 9,
        DtmfDigit::Star => 10,
        DtmfDigit::Pound => 11,
        DtmfDigit::A => 12,
        DtmfDigit::B => 13,
        DtmfDigit::C => 14,
        DtmfDigit::D => 15,
        DtmfDigit::Flash => 16,
    }
}

/// The digit carrying an event code, when the code is one of the 17 supported events.
pub open spec fn digit_of_code(code: u8) -> Option<DtmfDigit> {
    if code <= 16 {
        Some(choose|digit: DtmfDigit| digit_code(digit) == code)
    } else {
        None
    }
}

impl DtmfDigit {
    pub fn event_code(self) -> (code: u8)
        ensures
            code == digit_code(self),
            code <= 16,
    {
        match self {
            DtmfDigit::Zero => 0,
            DtmfDigit::One => 1,
            DtmfDigit::Two => 2,
            DtmfDigit::Three => 3,
            DtmfDigit::Four => 4,
            DtmfDigit::Five => 5,
            DtmfDigit::Six => 6,
            DtmfDigit::Seven => 7,
            DtmfDigit::Eight => 8,
            DtmfDigit::Nine => 9,
            DtmfDigit::Star => 10,
            DtmfDigit::Pound => 11,
            DtmfDigit::A => 12,
            DtmfDigit::B => 13,
            DtmfDigit::C => 14,
            DtmfDigit::D => 15,
            DtmfDigit::Flash => 16,
        }
    }

    fn from_event_code(code: u8) -> (digit: Option<DtmfDigit>)
        ensures
            digit == digit_of_code(code),
            digit matches Some(d) ==> digit_code(d) == code,
    {
        let digit = match code {
            0 => DtmfDigit::Zero,
            1 => DtmfDigit::One,
            2 => DtmfDigit::Two,
            3 => DtmfDigit::Three,
            4 => DtmfDigit::Four,
            5 => DtmfDigit::Five,
            6 => DtmfDigit::Six,
            7 => DtmfDigit::Seven,
            8 => DtmfDigit::Eight,
            9 => DtmfDigit::Nine,
            10 => DtmfDigit::Star,
            11 => DtmfDigit::Pound,
            12 => DtmfDigit::A,
            13 => DtmfDigit::B,
            14 => DtmfDigit::C,
            15 => DtmfDigit::D,
            16 => DtmfDigit::Flash,
            _ => return None,
        };
        proof {
            lemma_digit_code_injective(digit);
        }
        Some(digit)
    }
}

/// Distinct digits have distinct event codes, so a code names at most one digit.
pub proof fn lemma_digit_code_injective(digit: DtmfDigit)
    ensures
        digit_of_code(digit_code(digit)) == Some(digit),
{
    let other = choose|d: DtmfDigit| digit_code(d) == digit_code(digit);
    assert(digit_code(other) == digit_code(digit));
    assert(other == digit);
}

/// A decoded RFC 4733 telephone-event payload.
#[derive(Clone, Copy, Debug, PartialEq, Eq, Structural)]
pub struct DtmfEvent {
    pub digit: DtmfDigit,
    pub end: bool,
    pub reserved: bool,
    pub volume: u8,
    pub duration: u16,
}

#[derive(Clone, Copy, Debug, PartialEq, Eq, Structural)]
pub enum ParseError {
    TooShort,
    InvalidLength,
    UnsupportedEvent(u8),
    InvalidVolume(u8),
    InvalidDuration,
}

#[derive(Clone, Copy, Debug, PartialEq, Eq, Structural)]
pub enum EncodeError {
    InvalidVolume,
    InvalidDuration,
}

/// The event carried by a four-byte telephone-event payload: byte 0 is the
/// event code, byte 1 holds the end bit (0x80), the reserved bit (0x40) and a
/// six-bit volume, bytes 2 and 3 hold the big-endian duration.
pub open spec fn spec_parse(payload: Seq<u8>) -> Result<DtmfEvent, ParseError> {
    if payload.len() < 4 {
        Err(ParseError::TooShort)
    } else if payload.len() > 4 {
        Err(ParseError::InvalidLength)
    } else {
        match digit_of_code(payload[0]) {
            None => Err(ParseError::UnsupportedEvent(payload[0])),
            Some(digit) => {
                let duration = payload[2] * 256 + payload[3];
                if duration == 0 {
                    Err(ParseError::InvalidDuration)
                } else {
                    Ok(
                        DtmfEvent {
                            digit,
                            end: payload[1] >= 128,
                            reserved: (payload[1] / 64) % 2 == 1,
                            volume: (payload[1] % 64) as u8,
                            duration: duration as u16,
                        },
                    )
                }
            },
        }
    }
}

/// The payload that encodes an event whose volume fits six bits and whose
/// duration is non-zero.
pub open spec fn spec_encode(event: DtmfEvent) -> Result<Seq<u8>, EncodeError> {
    if event.volume > 63 {
        Err(EncodeError::InvalidVolume)
    } else if event.duration == 0 {
        Err(EncodeError::InvalidDuration)
    } else {
        Ok(
            seq![
                digit_code(event.digit),
                (event.volume + (if event.end { 128int } else { 0 }) + (if event.reserved {
                    64int
                } else {
                    0
                })) as u8,
                (event.duration / 256) as u8,
                (event.duration % 256) as u8,
            ],
        )
    }
}

pub fn parse(payload: &[u8]) -> (result: Result<DtmfEvent, ParseError>)
    ensures
        result == spec_parse(payload@),
{
    if payload.len() < 4 {
        return Err(ParseError::TooShort);
    }
    if payload.len() > 4 {
        return Err(ParseError::InvalidLength);
    }
    let digit = match DtmfDigit::from_event_code(payload[0]) {
        Some(digit) => digit,
        None => return Err(ParseError::UnsupportedEvent(payload[0])),
    };
    let flags = payload[1];
    let volume = flags & 0x3f;
    assert(volume == flags % 64 && volume <= 63) by (bit_vector)
        requires
            volume == flags & 0x3f,
    ;
    if volume > 63 {
        return Err(ParseError::InvalidVolume(volume));
    }
    let high = payload[2];
    let low = payload[3];
    let duration = ((high as u16) << 8) | (low as u16);
    assert(duration == high * 256 + low) by (bit_vector)
        requires
            duration == ((high as u16) << 8) | (low as u16),
    ;
    if duration == 0 {
        return Err(ParseError::InvalidDuration);
    }
    let end = flags & 0x80 != 0;
    let reserved = flags & 0x40 != 0;
    assert(end == (flags >= 128)) by (bit_vector)
        requires
            end == (flags & 0x80 != 0),
    ;
    assert(reserved == ((flags / 64) % 2 == 1)) by (bit_vector)
        requires
            reserved == (flags & 0x40 != 0),
    ;
    Ok(DtmfEvent { digit, end, reserved, volume, duration })
}

pub fn encode(event: DtmfEvent) -> (result: Result<[u8; 4], EncodeError>)
    ensures
        match result {
            Ok(bytes) => spec_encode(event) == Ok::<Seq<u8>, EncodeError>(bytes@),
            Err(error) => spec_encode(event) == Err::<Seq<u8>, EncodeError>(error),
        },
{
    if event.volume > 63 {
        return Err(EncodeError::InvalidVolume);
    }
    if event.duration == 0 {
        return Err(EncodeError::InvalidDuration);
    }
    let volume = event.volume;
    let mut flags = volume;
    if event.end {
        flags = flags | 0x80;
    }
    if event.reserved {
        flags = flags | 0x40;
    }
    let end = event.end;
    let reserved = event.reserved;
    assert(flags == volume + (if end { 128int } else { 0 }) + (if reserved { 64int } else { 0 }))
        by (bit_vector)
        requires
            volume <= 63,
            flags == (if end && reserved {
                (volume | 0x80) | 0x40
            } else if end {
                volume | 0x80
            } else if reserved {
                volume | 0x40
            } else {
                volume
            }),
    ;
    let duration = event.duration;
    let high = (duration >> 8) as u8;
    let low = (duration & 0xff) as u8;
    assert(high == duration / 256 && low == duration % 256) by (bit_vector)
        requires
            high == (duration >> 8) as u8,
            low == (duration & 0xff) as u8,
    ;
    let bytes = [event.digit.event_code(), flags, high, low];
    assert(bytes@ =~= spec_encode(event)->Ok_0);
    Ok(bytes)
}

/// An application-visible change in telephone-event state.
#[derive(Clone, Copy, Debug, PartialEq, Eq, Structural)]
pub enum Notification {
    Started(DtmfDigit),
    Ended { digit: DtmfDigit, duration: u16 },
}

/// Collapses retransmitted telephone-event packets into one start and one end
/// notification per key press.
#[derive(Clone, Debug)]
pub struct Deduplicator {
    active: Option<(DtmfDigit, u16)>,
    last_ended: Option<(DtmfDigit, u16)>,
}

/// The abstract state of a deduplicator: the digit currently pressed (with the
/// latest duration seen) and the most recently ended digit.
pub struct DeduplicatorView {
    pub active: Option<(DtmfDigit, u16)>,
    pub last_ended: Option<(DtmfDigit, u16)>,
}

impl View for Deduplicator {
    type V = DeduplicatorView;

    closed spec fn view(&self) -> DeduplicatorView {
        DeduplicatorView { active: self.active, last_ended: self.last_ended }
    }
}

/// One observation step: end packets are reported once unless they repeat the
/// digit that was just ended with no press in between; other packets report a
/// start whenever no press of the same digit is active.
pub open spec fn observe_step(state: DeduplicatorView, event: DtmfEvent) -> (
    DeduplicatorView,
    Option<Notification>,
) {
    if event.end {
        if state.active is None && (state.last_ended matches Some((digit, _))
            && digit == event.digit) {
            (state, None)
        } else {
            (
                DeduplicatorView {
                    active: None,
                    last_ended: Some((event.digit, event.duration)),
                },
                Some(Notification::Ended { digit: event.digit, duration: event.duration }),
            )
        }
    } else {
        let next = DeduplicatorView {
            active: Some((event.digit, event.duration)),
            last_ended: None,
        };
        if state.active matches Some((digit, _)) && digit == event.digit {
            (next, None)
        } else {
            (next, Some(Notification::Started(event.digit)))
        }
    }
}

impl Default for Deduplicator {
    fn default() -> (deduplicator: Self)
        ensures
            deduplicator@.active is None,
            deduplicator@.last_ended is None,
    {
        Deduplicator { active: None, last_ended: None }
    }
}

impl Deduplicator {
    pub fn observe(&mut self, event: DtmfEvent) -> (notification: Option<Notification>)
        ensures
            (final(self)@, notification) == observe_step(old(self)@, event),
    {
        if event.end {
            let repeated = match self.last_ended {
                Some((digit, _)) => self.active.is_none() && digit == event.digit,
                None => false,
            };
            if repeated {
                return None;
            }
            self.active = None;
            self.last_ended = Some((event.digit, event.duration));
            return Some(Notification::Ended { digit: event.digit, duration: event.duration });
        }
        self.last_ended = None;
        match self.active {
            Some((active_digit, _)) => {
                if active_digit == event.digit {
                    self.active = Some((active_digit, event.duration));
                    None
                } else {
                    self.active = Some((event.digit, event.duration));
                    Some(Notification::Started(event.digit))
                }
            },
            None => {
                self.active = Some((event.digit, event.duration));
                Some(Notification::Started(event.digit))
            },
        }
    }
}

/// Encoding a well-formed event and parsing the payload gives the event back.
pub proof fn law_encode_then_parse(event: DtmfEvent)
    requires
        event.volume <= 63,
        event.duration > 0,
    ensures
        spec_encode(event) is Ok,
        spec_parse(spec_encode(event)->Ok_0) == Ok::<DtmfEvent, ParseError>(event),
{
    let bytes = spec_encode(event)->Ok_0;
    lemma_digit_code_injective(event.digit);
    let flags = bytes[1];
    let v = event.volume;
    let e = event.end;
    let r = event.reserved;
    assert(flags % 64 == v && (flags >= 128) == e && ((flags / 64) % 2 == 1) == r) by (
    bit_vector)
        requires
            v <= 63,
            flags == (v + (if e { 128int } else { 0 }) + (if r { 64int } else { 0 })) as u8,
    ;
    let d = event.duration;
    assert((d / 256) as u8 * 256 + (d % 256) as u8 == d) by (bit_vector);
}

/// A payload that parses re-encodes to exactly the same four bytes.
pub proof fn law_parse_then_encode(payload: Seq<u8>)
    requires
        spec_parse(payload) is Ok,
    ensures
        spec_encode(spec_parse(payload)->Ok_0) == Ok::<Seq<u8>, EncodeError>(payload),
{
    let event = spec_parse(payload)->Ok_0;
    let code = payload[0];
    let digit = choose|d: DtmfDigit| digit_code(d) == code;
    assert(digit_code(match code {
        0 => DtmfDigit::Zero,
        1 => DtmfDigit::One,
        2 => DtmfDigit::Two,
        3 => DtmfDigit::Three,
        4 => DtmfDigit::Four,
        5 => DtmfDigit::Five,
        6 => DtmfDigit::Six,
        7 => DtmfDigit::Seven,
        8 => DtmfDigit::Eight,
        9 => DtmfDigit::Nine,
        10 => DtmfDigit::Star,
        11 => DtmfDigit::Pound,
        12 => DtmfDigit::A,
        13 => DtmfDigit::B,
        14 => DtmfDigit::C,
        15 => DtmfDigit::D,
        _ => DtmfDigit::Flash,
    }) == code);
    let flags = payload[1];
    assert((flags % 64 + (if flags >= 128 { 128int } else { 0 }) + (if (flags / 64) % 2 == 1 {
        64int
    } else {
        0
    })) as u8 == flags) by (bit_vector);
    let high = payload[2];
    let low = payload[3];
    assert(((high * 256 + low) as u16 / 256) as u8 == high && ((high * 256 + low) as u16
        % 256) as u8 == low) by (bit_vector);
    assert(spec_encode(event)->Ok_0 =~= payload);
}

/// A key press is announced whenever no press of its digit is in progress,
/// whatever ended before it: a repeated digit (the second 5 of "55") starts
/// anew, and only retransmissions of the press in progress are silent.
pub proof fn law_new_press_is_announced(state: DeduplicatorView, event: DtmfEvent)
    requires
        !event.end,
    ensures
        observe_step(state, event).0.active == Some((event.digit, event.duration)),
        !(state.active matches Some((digit, _)) && digit == event.digit) ==> observe_step(
            state,
            event,
        ).1 == Some(Notification::Started(event.digit)),
        (state.active matches Some((digit, _)) && digit == event.digit) ==> observe_step(
            state,
            event,
        ).1 is None,
{
}

/// Pressing, releasing and pressing the same digit again announces the second
/// press, from any starting state.
pub proof fn law_repeated_digit_is_announced_again(
    state: DeduplicatorView,
    press: DtmfEvent,
    release: DtmfEvent,
    again: DtmfEvent,
)
    requires
        !press.end,
        release.end,
        !again.end,
        release.digit == press.digit,
        again.digit == press.digit,
    ensures
        ({
            let first = observe_step(state, press);
            let second = observe_step(first.0, release);
            let third = observe_step(second.0, again);
            &&& second.1 == Some(Notification::Ended { digit: press.digit, duration: release.duration })
            &&& third.1 == Some(Notification::Started(press.digit))
        }),
{
}

/// Each key carries its RFC 4733 event number: the decimal keys their own
/// value, then `*` 10, `#` 11, `A` to `D` 12 to 15 and flash 16.
pub proof fn law_event_numbers(digit: DtmfDigit)
    ensures
        digit_code(digit) == match digit {
            DtmfDigit::Zero => 0u8,
            DtmfDigit::One => 1u8,
            DtmfDigit::Two => 2u8,
            DtmfDigit::Three => 3u8,
            DtmfDigit::Four => 4u8,
            DtmfDigit::Five => 5u8,
            DtmfDigit::Six => 6u8,
            DtmfDigit::Seven => 7u8,
            DtmfDigit::Eight => 8u8,
            DtmfDigit::Nine => 9u8,
            DtmfDigit::Star => 10u8,
            DtmfDigit::Pound => 11u8,
            DtmfDigit::A => 12u8,
            DtmfDigit::B => 13u8,
            DtmfDigit::C => 14u8,
            DtmfDigit::D => 15u8,
            DtmfDigit::Flash => 16u8,
        },
        digit_of_code(digit_code(digit)) == Some(digit),
{
    lemma_digit_code_injective(digit);
}

/// A release is announced with its digit and duration unless it repeats the
/// release just announced while no key is down.
pub proof fn law_release_is_announced(state: DeduplicatorView, event: DtmfEvent)
    requires
        event.end,
    ensures
        (state.active is None && (state.last_ended matches Some((digit, _)) && digit == event.digit))
            ==> observe_step(state, event) == (state, None::<Notification>),
        !(state.active is None && (state.last_ended matches Some((digit, _)) && digit == event.digit))
            ==> observe_step(state, event).1 == Some(
            Notification::Ended { digit: event.digit, duration: event.duration },
        ) && observe_step(state, event).0.active is None,
{
}

} // verus!
