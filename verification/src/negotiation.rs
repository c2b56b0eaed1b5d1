//! Audio offer/answer selection: the first audio section of each description,
//! the first local codec that the remote side also offers, and the remote
//! codec that matches it.

use vstd::prelude::*;

use crate::call_api::ApiError;
use crate::text::collect_chars;

verus! {

/// One codec of a media section, as its description lists it.
#[derive(Debug, PartialEq, Eq)]
pub struct SdpCodec {
    /// RTP payload type the codec is mapped to.
    pub payload_type: u8,
    /// Encoding name, compared without regard to ASCII case.
    pub name: String,
    /// Sampling clock rate in hertz.
    pub clock_rate: u32,
    /// Channel count.
    pub channels: u16,
    /// Format parameters, when the description gives any.
    pub fmtp: Option<String>,
    /// Whether the description maps this payload type to telephone events.
    pub telephone_event: bool,
}

impl Clone for SdpCodec {
    fn clone(&self) -> (copy: Self)
        ensures
            copy == *self,
    {
        let fmtp = match &self.fmtp {
            Some(parameters) => Some(parameters.clone()),
            None => None,
        };
        SdpCodec {
            payload_type: self.payload_type,
            name: self.name.clone(),
            clock_rate: self.clock_rate,
            channels: self.channels,
            fmtp,
            telephone_event: self.telephone_event,
        }
    }
}

/// One media section of a session description.
#[derive(Debug, PartialEq, Eq)]
pub struct MediaSection {
    /// Media kind, such as `audio`.
    pub media: String,
    /// Transport port; zero rejects the section.
    pub port: u16,
    /// Payload types the section offers, in preference order.
    pub formats: Vec<u8>,
    /// Codec mappings the section lists, in order.
    pub codecs: Vec<SdpCodec>,
    /// Section-level connection attribute.
    pub connection: Option<String>,
}

/// The audio sections and codecs one offer/answer settled on.
#[derive(Debug, PartialEq, Eq)]
pub struct AudioSelection {
    /// Position of the local audio section.
    pub local_section: usize,
    /// Position of the remote audio section.
    pub remote_section: usize,
    /// Codec selected from the local section.
    pub local_codec: SdpCodec,
    /// Matching codec selected from the remote section.
    pub remote_codec: SdpCodec,
    /// Remote connection: the section's own, else the session's.
    pub remote_connection: Option<String>,
    /// Remote RTP port advertised by the remote audio section.
    pub remote_port: u16,
}

/// A character's code with ASCII capitals folded to small letters.
pub open spec fn fold_ascii(c: char) -> u32 {
    if 'A' <= c && c <= 'Z' {
        (c as u32 + 32) as u32
    } else {
        c as u32
    }
}

/// Two texts that are equal once ASCII capitals are folded.
pub open spec fn same_ignoring_ascii_case(a: Seq<char>, b: Seq<char>) -> bool {
    &&& a.len() == b.len()
    &&& forall|i: int| 0 <= i < a.len() ==> #[trigger] fold_ascii(a[i]) == fold_ascii(b[i])
}

fn fold_char(c: char) -> (code: u32)
    ensures
        code == fold_ascii(c),
{
    if 'A' <= c && c <= 'Z' {
        c as u32 + 32
    } else {
        c as u32
    }
}

/// Compares two texts without regard to ASCII case.
pub fn eq_ignore_ascii_case(a: &str, b: &str) -> (same: bool)
    ensures
        same == same_ignoring_ascii_case(a@, b@),
{
    let left = collect_chars(a);
    let right = collect_chars(b);
    if left.len() != right.len() {
        return false;
    }
    let mut index: usize = 0;
    while index < left.len()
        invariant
            left@ == a@,
            right@ == b@,
            left.len() == right.len(),
            index <= left.len(),
            forall|i: int| 0 <= i < index ==> #[trigger] fold_ascii(a@[i]) == fold_ascii(b@[i]),
        decreases left.len() - index,
    {
        if fold_char(left[index]) != fold_char(right[index]) {
            return false;
        }
        index += 1;
    }
    true
}

/// A media section of kind `audio`, in any ASCII case.
pub open spec fn is_audio(section: MediaSection) -> bool {
    same_ignoring_ascii_case(section.media@, "audio"@)
}

pub open spec fn has_audio(sections: Seq<MediaSection>) -> bool {
    exists|i: int| 0 <= i < sections.len() && #[trigger] is_audio(sections[i])
}

/// `i` is the first audio section.
pub open spec fn is_first_audio(sections: Seq<MediaSection>, i: int) -> bool {
    &&& 0 <= i < sections.len()
    &&& is_audio(sections[i])
    &&& forall|j: int| 0 <= j < i ==> !#[trigger] is_audio(sections[j])
}

/// The section lists the codec's payload type among its formats.
pub open spec fn offers(section: MediaSection, codec: SdpCodec) -> bool {
    section.formats@.contains(codec.payload_type)
}

/// Same encoding name (ignoring ASCII case), clock rate and channels.
pub open spec fn codecs_match(a: SdpCodec, b: SdpCodec) -> bool {
    &&& same_ignoring_ascii_case(a.name@, b.name@)
    &&& a.clock_rate == b.clock_rate
    &&& a.channels == b.channels
}

/// Remote codec `m` is offered by the remote section and matches `codec`.
pub open spec fn remote_matches(remote: MediaSection, codec: SdpCodec, m: int) -> bool {
    &&& 0 <= m < remote.codecs@.len()
    &&& offers(remote, remote.codecs@[m])
    &&& codecs_match(codec, remote.codecs@[m])
}

/// Local codec `k` is offered, is not a telephone event, and the remote side
/// offers a matching codec.
pub open spec fn answerable(local: MediaSection, remote: MediaSection, k: int) -> bool {
    &&& 0 <= k < local.codecs@.len()
    &&& offers(local, local.codecs@[k])
    &&& !local.codecs@[k].telephone_event
    &&& exists|m: int| #[trigger] remote_matches(remote, local.codecs@[k], m)
}

pub open spec fn is_first_answerable(local: MediaSection, remote: MediaSection, k: int) -> bool {
    &&& answerable(local, remote, k)
    &&& forall|j: int| 0 <= j < k ==> !#[trigger] answerable(local, remote, j)
}

pub open spec fn is_first_remote_match(remote: MediaSection, codec: SdpCodec, m: int) -> bool {
    &&& remote_matches(remote, codec, m)
    &&& forall|j: int| 0 <= j < m ==> !#[trigger] remote_matches(remote, codec, j)
}

/// What selecting between the first local and the first remote audio
/// sections gives.
pub open spec fn selection_outcome(
    local: MediaSection,
    remote: MediaSection,
    li: int,
    ri: int,
    session_connection: Option<String>,
    result: Result<AudioSelection, ApiError>,
) -> bool {
    if remote.port == 0 {
        result == Err::<AudioSelection, ApiError>(ApiError::MediaRejected)
    } else if !(exists|k: int| #[trigger] answerable(local, remote, k)) {
        result == Err::<AudioSelection, ApiError>(ApiError::NoCommonCodec)
    } else {
        &&& result is Ok
        &&& result->Ok_0.local_section == li
        &&& result->Ok_0.remote_section == ri
        &&& exists|k: int|
            #[trigger] is_first_answerable(local, remote, k) && result->Ok_0.local_codec
                == local.codecs@[k]
        &&& exists|m: int|
            #[trigger] is_first_remote_match(remote, result->Ok_0.local_codec, m)
                && result->Ok_0.remote_codec == remote.codecs@[m]
        &&& result->Ok_0.remote_connection == match remote.connection {
            Some(connection) => Some(connection),
            None => session_connection,
        }
        &&& result->Ok_0.remote_port == remote.port
    }
}

/// The outcome of settling an offer/answer between the two descriptions:
/// `NoAudioMedia` exactly when either has no audio section, else what the
/// first audio sections give.
pub open spec fn selects(
    local: Seq<MediaSection>,
    remote: Seq<MediaSection>,
    session_connection: Option<String>,
    result: Result<AudioSelection, ApiError>,
) -> bool {
    &&& !(has_audio(local) && has_audio(remote)) <==> result == Err::<AudioSelection, ApiError>(
        ApiError::NoAudioMedia,
    )
    &&& forall|li: int, ri: int|
        is_first_audio(local, li) && is_first_audio(remote, ri) ==> #[trigger] selection_outcome(
            local[li],
            remote[ri],
            li,
            ri,
            session_connection,
            result,
        )
}

fn find_audio(sections: &[MediaSection]) -> (found: Option<usize>)
    ensures
        match found {
            Some(i) => is_first_audio(sections@, i as int),
            None => !has_audio(sections@),
        },
{
    let mut index: usize = 0;
    while index < sections.len()
        invariant
            index <= sections.len(),
            forall|j: int| 0 <= j < index ==> !#[trigger] is_audio(sections@[j]),
        decreases sections.len() - index,
    {
        if eq_ignore_ascii_case(sections[index].media.as_str(), "audio") {
            return Some(index);
        }
        index += 1;
    }
    None
}

fn offers_payload(section: &MediaSection, payload_type: u8) -> (offered: bool)
    ensures
        offered == section.formats@.contains(payload_type),
{
    let mut index: usize = 0;
    while index < section.formats.len()
        invariant
            index <= section.formats.len(),
            forall|j: int| 0 <= j < index ==> section.formats@[j] != payload_type,
        decreases section.formats.len() - index,
    {
        if section.formats[index] == payload_type {
            assert(section.formats@[index as int] == payload_type);
            return true;
        }
        index += 1;
    }
    false
}

fn codecs_agree(a: &SdpCodec, b: &SdpCodec) -> (agree: bool)
    ensures
        agree == codecs_match(*a, *b),
{
    eq_ignore_ascii_case(a.name.as_str(), b.name.as_str()) && a.clock_rate == b.clock_rate
        && a.channels == b.channels
}

fn first_remote_match(remote: &MediaSection, codec: &SdpCodec) -> (found: Option<usize>)
    ensures
        match found {
            Some(m) => is_first_remote_match(*remote, *codec, m as int),
            None => forall|m: int| !#[trigger] remote_matches(*remote, *codec, m),
        },
{
    let mut index: usize = 0;
    while index < remote.codecs.len()
        invariant
            index <= remote.codecs.len(),
            forall|j: int| 0 <= j < index ==> !#[trigger] remote_matches(*remote, *codec, j),
        decreases remote.codecs.len() - index,
    {
        let candidate = &remote.codecs[index];
        if offers_payload(remote, candidate.payload_type) && codecs_agree(codec, candidate) {
            return Some(index);
        }
        index += 1;
    }
    None
}

fn first_answerable(local: &MediaSection, remote: &MediaSection) -> (found: Option<usize>)
    ensures
        match found {
            Some(k) => is_first_answerable(*local, *remote, k as int),
            None => forall|k: int| !#[trigger] answerable(*local, *remote, k),
        },
{
    let mut index: usize = 0;
    while index < local.codecs.len()
        invariant
            index <= local.codecs.len(),
            forall|j: int| 0 <= j < index ==> !#[trigger] answerable(*local, *remote, j),
        decreases local.codecs.len() - index,
    {
        let candidate = &local.codecs[index];
        if offers_payload(local, candidate.payload_type) && !candidate.telephone_event {
            if first_remote_match(remote, candidate).is_some() {
                return Some(index);
            }
        }
        index += 1;
    }
    None
}

fn clone_text(text: &Option<String>) -> (copy: Option<String>)
    ensures
        copy == *text,
{
    match text {
        Some(value) => Some(value.clone()),
        None => None,
    }
}

/// Settles an audio offer/answer: the first audio section of each side (else
/// `NoAudioMedia`), a remote port other than zero (else `MediaRejected`), the
/// first local codec that is offered, is no telephone event and has an
/// offered remote match (else `NoCommonCodec`), and the first such remote
/// match; the remote connection falls back to the session's.
pub fn select_audio(
    local: &[MediaSection],
    remote: &[MediaSection],
    remote_session_connection: &Option<String>,
) -> (result: Result<AudioSelection, ApiError>)
    ensures
        selects(local@, remote@, *remote_session_connection, result),
{
    let li = match find_audio(local) {
        Some(i) => i,
        None => return Err(ApiError::NoAudioMedia),
    };
    let ri = match find_audio(remote) {
        Some(i) => i,
        None => return Err(ApiError::NoAudioMedia),
    };
    proof {
        lemma_first_audio_unique(local@, li as int);
        lemma_first_audio_unique(remote@, ri as int);
    }
    let local_media = &local[li];
    let remote_media = &remote[ri];
    if remote_media.port == 0 {
        return Err(ApiError::MediaRejected);
    }
    let k = match first_answerable(local_media, remote_media) {
        Some(k) => k,
        None => return Err(ApiError::NoCommonCodec),
    };
    let local_codec = local_media.codecs[k].clone();
    let m = match first_remote_match(remote_media, &local_codec) {
        Some(m) => m,
        None => {
            proof {
                assert(answerable(*local_media, *remote_media, k as int));
                let w = choose|w: int| #[trigger] remote_matches(*remote_media, local_codec, w);
                assert(remote_matches(*remote_media, local_codec, w));
            }
            return Err(ApiError::NoCommonCodec);
        },
    };
    let remote_codec = remote_media.codecs[m].clone();
    let remote_connection = match &remote_media.connection {
        Some(connection) => Some(connection.clone()),
        None => clone_text(remote_session_connection),
    };
    Ok(
        AudioSelection {
            local_section: li,
            remote_section: ri,
            local_codec,
            remote_codec,
            remote_connection,
            remote_port: remote_media.port,
        },
    )
}

proof fn lemma_first_audio_unique(sections: Seq<MediaSection>, i: int)
    requires
        is_first_audio(sections, i),
    ensures
        has_audio(sections),
        forall|j: int| #[trigger] is_first_audio(sections, j) ==> j == i,
{
    assert(is_audio(sections[i]));
    assert forall|j: int| #[trigger] is_first_audio(sections, j) implies j == i by {
        if j < i {
            assert(!is_audio(sections[j]));
        } else if i < j {
            assert(!is_audio(sections[i]));
        }
    }
}

/// Direction of a negotiated media stream, from the local side.
#[derive(Clone, Copy, Debug, PartialEq, Eq, Structural)]
pub enum Direction {
    SendRecv,
    SendOnly,
    RecvOnly,
    Inactive,
}

/// The audio offer/answer result retained for a call.
#[derive(Debug, PartialEq, Eq)]
pub struct NegotiatedAudio {
    /// Codec selected from the local description.
    pub local_codec: SdpCodec,
    /// Matching codec selected from the remote description.
    pub remote_codec: SdpCodec,
    /// Direction of the resulting local media stream.
    pub direction: Direction,
    /// Remote connection attribute, when one was advertised.
    pub remote_connection: Option<String>,
    /// Remote RTP port advertised by the negotiated audio section.
    pub remote_port: u16,
}

impl Clone for NegotiatedAudio {
    fn clone(&self) -> (copy: Self)
        ensures
            copy == *self,
    {
        NegotiatedAudio {
            local_codec: self.local_codec.clone(),
            remote_codec: self.remote_codec.clone(),
            direction: self.direction,
            remote_connection: clone_text(&self.remote_connection),
            remote_port: self.remote_port,
        }
    }
}

/// The negotiation a selection and the negotiated direction make.
pub open spec fn negotiated(selection: AudioSelection, direction: Direction) -> NegotiatedAudio {
    NegotiatedAudio {
        local_codec: selection.local_codec,
        remote_codec: selection.remote_codec,
        direction,
        remote_connection: selection.remote_connection,
        remote_port: selection.remote_port,
    }
}

/// Builds the retained negotiation from a selection.
pub(crate) fn into_negotiated(selection: AudioSelection, direction: Direction) -> (audio: NegotiatedAudio)
    ensures
        audio == negotiated(selection, direction),
{
    NegotiatedAudio {
        local_codec: selection.local_codec,
        remote_codec: selection.remote_codec,
        direction,
        remote_connection: selection.remote_connection,
        remote_port: selection.remote_port,
    }
}

/// Copies a retained negotiation.
pub fn clone_media(media: &Option<NegotiatedAudio>) -> (copy: Option<NegotiatedAudio>)
    ensures
        copy == *media,
{
    match media {
        Some(audio) => Some(audio.clone()),
        None => None,
    }
}

proof fn lemma_first_answerable_unique(local: MediaSection, remote: MediaSection, a: int, b: int)
    requires
        is_first_answerable(local, remote, a),
        is_first_answerable(local, remote, b),
    ensures
        a == b,
{
    if a < b {
        assert(!answerable(local, remote, a));
    } else if b < a {
        assert(!answerable(local, remote, b));
    }
}

proof fn lemma_first_remote_match_unique(remote: MediaSection, codec: SdpCodec, a: int, b: int)
    requires
        is_first_remote_match(remote, codec, a),
        is_first_remote_match(remote, codec, b),
    ensures
        a == b,
{
    if a < b {
        assert(!remote_matches(remote, codec, a));
    } else if b < a {
        assert(!remote_matches(remote, codec, b));
    }
}

/// An offer/answer has one outcome: two results that both meet the selection
/// rules for the same descriptions are the same result.
pub proof fn law_selection_is_determined(
    local: Seq<MediaSection>,
    remote: Seq<MediaSection>,
    session_connection: Option<String>,
    first: Result<AudioSelection, ApiError>,
    second: Result<AudioSelection, ApiError>,
)
    requires
        selects(local, remote, session_connection, first),
        selects(local, remote, session_connection, second),
    ensures
        first == second,
{
    if has_audio(local) && has_audio(remote) {
        let i = choose|i: int| 0 <= i < local.len() && #[trigger] is_audio(local[i]);
        let j = choose|j: int| 0 <= j < remote.len() && #[trigger] is_audio(remote[j]);
        let li = lemma_first_audio_exists(local, i);
        let ri = lemma_first_audio_exists(remote, j);
        assert(selection_outcome(local[li], remote[ri], li, ri, session_connection, first));
        assert(selection_outcome(local[li], remote[ri], li, ri, session_connection, second));
        let l = local[li];
        let r = remote[ri];
        if r.port != 0 && exists|k: int| #[trigger] answerable(l, r, k) {
            let s1 = first->Ok_0;
            let s2 = second->Ok_0;
            let k1 = choose|k: int|
                #[trigger] is_first_answerable(l, r, k) && s1.local_codec == l.codecs@[k];
            let k2 = choose|k: int|
                #[trigger] is_first_answerable(l, r, k) && s2.local_codec == l.codecs@[k];
            lemma_first_answerable_unique(l, r, k1, k2);
            let m1 = choose|m: int|
                #[trigger] is_first_remote_match(r, s1.local_codec, m) && s1.remote_codec
                    == r.codecs@[m];
            let m2 = choose|m: int|
                #[trigger] is_first_remote_match(r, s2.local_codec, m) && s2.remote_codec
                    == r.codecs@[m];
            lemma_first_remote_match_unique(r, s1.local_codec, m1, m2);
            assert(s1 == s2);
        }
    }
}

proof fn lemma_first_audio_exists(sections: Seq<MediaSection>, i: int) -> (first: int)
    requires
        0 <= i < sections.len(),
        is_audio(sections[i]),
    ensures
        is_first_audio(sections, first),
    decreases i,
{
    if exists|j: int| 0 <= j < i && #[trigger] is_audio(sections[j]) {
        let j = choose|j: int| 0 <= j < i && #[trigger] is_audio(sections[j]);
        lemma_first_audio_exists(sections, j)
    } else {
        i
    }
}

} // verus!
