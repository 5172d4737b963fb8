use vox_media::lifecycle::{AlreadyRunning, Lifecycle};
use vox_media::tls::{alpn_protocol, cert_matches_pin};
use vox_media::url::{parse_port, split_host_port, strip_scheme, UrlError};
use vox_media::video::{start_camera_capture, stop_camera_capture};

#[test]
fn scheme_is_optional() {
    assert_eq!(strip_scheme("quic://sfu.example.org:4443"), "sfu.example.org:4443");
    assert_eq!(strip_scheme("127.0.0.1:4443"), "127.0.0.1:4443");
    assert_eq!(strip_scheme("quic:/x:1"), "quic:/x:1");
    assert_eq!(strip_scheme("quic://"), "");
}

#[test]
fn host_and_port_split_at_the_last_colon() {
    assert_eq!(split_host_port("sfu.example.org:4443"), Ok(("sfu.example.org", 4443)));
    assert_eq!(split_host_port("a:b:80"), Ok(("a:b", 80)));
    assert_eq!(split_host_port("höst:+65535"), Ok(("höst", 65535)));
}

#[test]
fn bad_ports_are_refused() {
    assert_eq!(split_host_port("example.org"), Err(UrlError::MissingPort));
    assert_eq!(split_host_port("example.org:"), Err(UrlError::InvalidPort));
    assert_eq!(split_host_port("example.org:65536"), Err(UrlError::InvalidPort));
    assert_eq!(split_host_port("example.org:44x"), Err(UrlError::InvalidPort));
}

#[test]
fn ports_parse_like_rust_integers() {
    for s in ["0", "80", "+80", "00080", "65535", "65536", "", "+", "-1", "99999999999"] {
        assert_eq!(parse_port(s), s.parse::<u16>().ok(), "{}", s);
    }
}

#[test]
fn alpn_is_vox_media_1() {
    assert_eq!(alpn_protocol(), b"vox-media/1".to_vec());
}

#[test]
fn pinning_compares_exact_bytes() {
    assert!(cert_matches_pin(&[1, 2, 3], &[1, 2, 3]));
    assert!(!cert_matches_pin(&[1, 2, 3], &[1, 2, 4]));
    assert!(!cert_matches_pin(&[1, 2], &[1, 2, 3]));
    assert!(cert_matches_pin(&[], &[]));
}

#[test]
fn video_stubs_accept_and_do_nothing() {
    assert!(start_camera_capture().is_ok());
    stop_camera_capture();
}

#[test]
fn start_twice_fails_stop_twice_does_not() {
    let mut l = Lifecycle::new();
    assert!(!l.running);
    assert_eq!(l.start(), Ok(()));
    assert_eq!(l.start(), Err(AlreadyRunning));
    l.stop();
    l.stop();
    assert!(!l.running);
    assert_eq!(l.start(), Ok(()));
}
