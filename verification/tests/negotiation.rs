use call_platform::call_api::ApiError;
use call_platform::negotiation::{eq_ignore_ascii_case, select_audio, MediaSection, SdpCodec};

fn codec(payload_type: u8, name: &str, telephone_event: bool) -> SdpCodec {
    SdpCodec {
        payload_type,
        name: name.to_owned(),
        clock_rate: 8000,
        channels: 1,
        fmtp: None,
        telephone_event,
    }
}

fn local_audio() -> Vec<MediaSection> {
    vec![MediaSection {
        media: "audio".to_owned(),
        port: 5000,
        formats: vec![0, 101],
        codecs: vec![codec(0, "PCMU", false), codec(101, "telephone-event", true)],
        connection: None,
    }]
}

fn remote_audio(port: u16, payload_type: u8, name: &str) -> Vec<MediaSection> {
    vec![MediaSection {
        media: "audio".to_owned(),
        port,
        formats: vec![payload_type],
        codecs: vec![codec(payload_type, name, false)],
        connection: None,
    }]
}

#[test]
fn audio_selection_keeps_codecs_and_remote_endpoint() {
    let session = Some("IN IP4 192.0.2.10".to_owned());
    let selected = select_audio(&local_audio(), &remote_audio(4000, 96, "PCMU"), &session).unwrap();
    assert_eq!(selected.local_section, 0);
    assert_eq!(selected.remote_section, 0);
    assert_eq!(selected.local_codec.payload_type, 0);
    assert_eq!(selected.remote_codec.payload_type, 96);
    assert_eq!(selected.remote_connection.as_deref(), Some("IN IP4 192.0.2.10"));
    assert_eq!(selected.remote_port, 4000);
}

#[test]
fn audio_selection_reports_each_failure() {
    let session = Some("IN IP4 192.0.2.10".to_owned());
    assert_eq!(
        select_audio(&local_audio(), &remote_audio(4000, 9, "G722"), &session),
        Err(ApiError::NoCommonCodec)
    );
    assert_eq!(
        select_audio(&local_audio(), &remote_audio(0, 0, "PCMU"), &session),
        Err(ApiError::MediaRejected)
    );
    assert_eq!(
        select_audio(&local_audio(), &[], &session),
        Err(ApiError::NoAudioMedia)
    );
    let mut video = remote_audio(4000, 0, "PCMU");
    video[0].media = "video".to_owned();
    assert_eq!(
        select_audio(&local_audio(), &video, &session),
        Err(ApiError::NoAudioMedia)
    );
    assert_eq!(
        select_audio(&local_audio(), &remote_audio(4000, 101, "telephone-event"), &session),
        Err(ApiError::NoCommonCodec)
    );
}

#[test]
fn audio_selection_ignores_case_and_prefers_section_connection() {
    let mut remote = remote_audio(4002, 8, "pcma");
    remote.insert(
        0,
        MediaSection {
            media: "video".to_owned(),
            port: 6000,
            formats: vec![8],
            codecs: vec![codec(8, "PCMA", false)],
            connection: None,
        },
    );
    remote[1].media = "AUDIO".to_owned();
    remote[1].connection = Some("IN IP4 198.51.100.7".to_owned());
    remote[1].formats.push(0);
    remote[1].codecs.push(codec(0, "pcmu", false));
    let mut local = local_audio();
    local[0].formats = vec![8, 0];
    local[0].codecs.insert(0, codec(8, "PCMA", false));
    let selected = select_audio(&local, &remote, &None).unwrap();
    assert_eq!(selected.remote_section, 1);
    assert_eq!(selected.local_codec.payload_type, 8);
    assert_eq!(selected.remote_codec.name, "pcma");
    assert_eq!(selected.remote_connection.as_deref(), Some("IN IP4 198.51.100.7"));
    assert_eq!(selected.remote_port, 4002);

    let mut unlisted = local_audio();
    unlisted[0].formats = vec![101];
    assert_eq!(
        select_audio(&unlisted, &remote_audio(4000, 0, "PCMU"), &None),
        Err(ApiError::NoCommonCodec)
    );
}

#[test]
fn ascii_case_comparison_folds_only_capitals() {
    assert!(eq_ignore_ascii_case("Audio", "aUDIO"));
    assert!(!eq_ignore_ascii_case("audio", "audios"));
    assert!(!eq_ignore_ascii_case("a-b", "a_b"));
    assert!(eq_ignore_ascii_case("", ""));
}
