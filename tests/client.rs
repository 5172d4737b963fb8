use bytes::Bytes;
use vox_media::client::{
    backoff_delay_secs, to_decimal, ConnectParams, MediaEvent, MediaLoop, Phase, SessionState,
};
use vox_media::header::{MediaHeader, CODEC_OPUS, FLAG_END_OF_FRAME, MEDIA_TYPE_VIDEO};

fn params() -> ConnectParams {
    ConnectParams {
        url: "quic://127.0.0.1:4443".to_string(),
        token: "t10".to_string(),
        room_id: 7,
        user_id: 10,
        cert_der: None,
        idle_timeout_secs: 30,
        datagram_buffer_size: 65535,
    }
}

fn connected() -> MediaLoop {
    let mut m = MediaLoop::new();
    m.begin_connect();
    let e = m.connect_succeeded(params());
    assert_eq!(e.to_tuple(), ("connected".to_string(), String::new()));
    m
}

fn tuple(e: &MediaEvent) -> (String, String) {
    e.to_tuple()
}

#[test]
fn backoff_delays_are_exact() {
    let delays: Vec<u64> = (1..=5).map(backoff_delay_secs).collect();
    assert_eq!(delays, vec![1, 2, 4, 8, 16]);
    assert_eq!(backoff_delay_secs(6), 30);
    assert_eq!(backoff_delay_secs(40), 30);
    assert_eq!(backoff_delay_secs(u32::MAX), 30);
}

#[test]
fn decimal_notation() {
    assert_eq!(to_decimal(0), "0");
    assert_eq!(to_decimal(7), "7");
    assert_eq!(to_decimal(1234567890), "1234567890");
    assert_eq!(to_decimal(u64::MAX), u64::MAX.to_string());
}

#[test]
fn event_tuples() {
    let r = MediaEvent::Reconnecting { attempt: 3, delay_secs: 4 };
    assert_eq!(tuple(&r), ("reconnecting".to_string(), "attempt=3,delay=4".to_string()));
    let d = MediaEvent::Disconnected("gone".to_string());
    assert_eq!(tuple(&d), ("disconnected".to_string(), "gone".to_string()));
    let f = MediaEvent::ConnectFailed("refused".to_string());
    assert_eq!(tuple(&f), ("connect_failed".to_string(), "refused".to_string()));
    let a = MediaEvent::AudioError("encode".to_string());
    assert_eq!(tuple(&a), ("audio_error".to_string(), "encode".to_string()));
}

#[test]
fn connect_starts_a_fresh_session() {
    let m = connected();
    assert!(m.connected());
    assert!(m.wants_capture());
    assert_eq!(m.saved_params().unwrap().room_id, 7);
}

#[test]
fn failed_connect_reports_and_stays_disconnected() {
    let mut m = MediaLoop::new();
    m.begin_connect();
    let e = m.connect_failed("no route".to_string());
    assert_eq!(tuple(&e), ("connect_failed".to_string(), "no route".to_string()));
    assert!(!m.connected());
    assert!(m.saved_params().is_none());
}

#[test]
fn commands_while_disconnected_do_nothing() {
    let mut m = MediaLoop::new();
    assert!(m.disconnect().is_none());
    m.set_mute(true);
    m.set_deaf(true);
    m.set_video(true);
    assert!(!m.connected());
    assert!(!m.wants_capture());
}

#[test]
fn counters_advance_per_frame_and_wrap() {
    let mut m = connected();
    let first = m.frame_audio(Bytes::from_static(&[1, 2]));
    let h = MediaHeader::parse(&first).unwrap();
    assert_eq!((h.sequence, h.timestamp), (0, 0));
    assert_eq!((h.room_id, h.user_id, h.codec_id), (7, 10, CODEC_OPUS));
    assert_eq!(h.flags, FLAG_END_OF_FRAME);
    assert_eq!(&first[22..], &[1, 2]);
    let second = m.frame_audio(Bytes::from_static(&[3]));
    let h2 = MediaHeader::parse(&second).unwrap();
    assert_eq!((h2.sequence, h2.timestamp), (1, 960));
    for _ in 0..10 {
        m.frame_audio(Bytes::new());
    }
    let later = MediaHeader::parse(&m.frame_audio(Bytes::new())).unwrap();
    assert_eq!((later.sequence, later.timestamp), (12, 12 * 960));
}

#[test]
fn mute_stops_capture_and_deafen_stops_playback() {
    let mut m = connected();
    let mut out = MediaLoop::new();
    out.begin_connect();
    out.connect_succeeded(ConnectParams { user_id: 11, ..params() });
    let datagram = out.frame_audio(Bytes::from_static(&[5, 6, 7]));
    let played = m.inbound_audio(datagram.clone()).unwrap();
    assert_eq!(&played[..], &[5, 6, 7]);
    m.set_mute(true);
    assert!(!m.wants_capture());
    m.set_deaf(true);
    assert!(m.inbound_audio(datagram).is_none());
}

#[test]
fn inbound_drops_video_and_short_datagrams() {
    let m = connected();
    let mut h = MediaHeader::parse(&[0u8; 22]).unwrap();
    h.media_type = MEDIA_TYPE_VIDEO;
    let mut v = h.encode().to_vec();
    v.push(1);
    assert!(m.inbound_audio(Bytes::from(v)).is_none());
    assert!(m.inbound_audio(Bytes::from_static(&[0u8; 10])).is_none());
    assert!(MediaLoop::new().inbound_audio(Bytes::from_static(&[0u8; 30])).is_none());
}

#[test]
fn user_disconnect_clears_params_and_reports() {
    let mut m = connected();
    let e = m.disconnect().unwrap();
    assert_eq!(tuple(&e), ("disconnected".to_string(), "user requested".to_string()));
    assert!(m.saved_params().is_none());
    let after = m.read_error("closed".to_string());
    assert_eq!(tuple(&after.unwrap()), ("disconnected".to_string(), "closed".to_string()));
}

#[test]
fn read_error_with_params_reconnects_then_succeeds() {
    let mut m = connected();
    assert!(m.read_error("timed out".to_string()).is_none());
    assert!(!m.connected());
    let e1 = m.next_reconnect();
    assert_eq!(tuple(&e1), ("reconnecting".to_string(), "attempt=1,delay=1".to_string()));
    m.reconnect_failed();
    let e2 = m.next_reconnect();
    assert_eq!(tuple(&e2), ("reconnecting".to_string(), "attempt=2,delay=2".to_string()));
    let ok = m.reconnect_succeeded();
    assert_eq!(tuple(&ok), ("connected".to_string(), String::new()));
    assert!(m.connected());
    let h = MediaHeader::parse(&m.frame_audio(Bytes::new())).unwrap();
    assert_eq!((h.sequence, h.timestamp, h.user_id), (0, 0, 10));
}

#[test]
fn reconnect_gives_up_after_five_attempts() {
    let mut m = connected();
    assert!(m.read_error("timed out".to_string()).is_none());
    let mut seen = Vec::new();
    loop {
        match m.next_reconnect() {
            MediaEvent::Reconnecting { attempt, delay_secs } => {
                seen.push((attempt, delay_secs));
                m.reconnect_failed();
            }
            other => {
                assert_eq!(
                    tuple(&other),
                    (
                        "disconnected".to_string(),
                        "Reconnection failed after 5 attempts".to_string()
                    )
                );
                break;
            }
        }
    }
    assert_eq!(seen, vec![(1, 1), (2, 2), (3, 4), (4, 8), (5, 16)]);
    assert!(m.saved_params().is_none());
    assert!(!m.connected());
}

#[test]
fn phase_and_session_state_are_plain_values() {
    let s = SessionState {
        room_id: 1,
        user_id: 2,
        sequence: 3,
        timestamp: 4,
        muted: false,
        deafened: false,
        video: false,
    };
    assert_eq!(Phase::Connected(s), Phase::Connected(s));
    assert_ne!(Phase::Disconnected, Phase::Reconnecting(0));
}
