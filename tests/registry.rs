use vox_media::header::{MediaHeader, CODEC_OPUS, FLAG_END_OF_FRAME};
use vox_media::registry::{AdmitError, AuthError, ForwardError, State, AUTH_CLOSE_CODE};

fn frame(room: u32, user: u32) -> Vec<u8> {
    let h = MediaHeader {
        version: 1,
        media_type: 0,
        codec_id: CODEC_OPUS,
        flags: FLAG_END_OF_FRAME,
        room_id: room,
        user_id: user,
        sequence: 1,
        timestamp: 48000,
        spatial_id: 0,
        temporal_id: 0,
        dtx: false,
    };
    let mut v = h.encode().to_vec();
    v.extend_from_slice(&[0xAB; 40]);
    v
}

fn sorted(mut v: Vec<u32>) -> Vec<u32> {
    v.sort();
    v
}

fn room_seven() -> State<u64> {
    let mut s: State<u64> = State::new();
    s.add_room(7);
    assert_eq!(s.admit_user(7, 10, "t10"), Ok(()));
    assert_eq!(s.admit_user(7, 11, "t11"), Ok(()));
    s
}

#[test]
fn admit_requires_an_existing_room() {
    let mut s: State<u64> = State::new();
    assert_eq!(s.admit_user(3, 1, "tok"), Err(AdmitError::NoSuchRoom));
    assert_eq!(s.resolve_token("tok"), None);
    assert_eq!(s.get_room_users(3), None);
}

#[test]
fn add_room_is_idempotent() {
    let mut s = room_seven();
    s.add_room(7);
    assert_eq!(sorted(s.get_room_users(7).unwrap()), vec![10, 11]);
}

#[test]
fn resolve_and_authenticate_tokens() {
    let s = room_seven();
    assert_eq!(s.resolve_token("t10"), Some((7, 10)));
    assert_eq!(s.authenticate(b"t11"), Ok((7, 11)));
    assert_eq!(s.authenticate(b"nope"), Err(AuthError::UnknownToken));
    assert_eq!(s.authenticate(&[0xFF, 0xFE]), Err(AuthError::InvalidToken));
}

#[test]
fn readmitting_replaces_the_token() {
    let mut s = room_seven();
    assert_eq!(s.admit_user(7, 10, "t10b"), Ok(()));
    assert_eq!(s.resolve_token("t10"), None);
    assert_eq!(s.resolve_token("t10b"), Some((7, 10)));
    assert_eq!(sorted(s.get_room_users(7).unwrap()), vec![10, 11]);
}

#[test]
fn a_token_of_another_user_is_refused() {
    let mut s = room_seven();
    assert_eq!(s.admit_user(7, 12, "t10"), Err(AdmitError::TokenInUse));
    assert_eq!(s.resolve_token("t10"), Some((7, 10)));
    assert_eq!(sorted(s.get_room_users(7).unwrap()), vec![10, 11]);
}

#[test]
fn remove_user_purges_its_token() {
    let mut s = room_seven();
    s.remove_user(7, 10);
    assert_eq!(s.resolve_token("t10"), None);
    assert_eq!(s.resolve_token("t11"), Some((7, 11)));
    assert_eq!(s.get_room_users(7), Some(vec![11]));
    s.remove_user(7, 99);
    s.remove_user(8, 11);
    assert_eq!(s.get_room_users(7), Some(vec![11]));
}

#[test]
fn remove_room_purges_all_its_tokens() {
    let mut s = room_seven();
    s.add_room(8);
    assert_eq!(s.admit_user(8, 10, "other"), Ok(()));
    s.remove_room(7);
    assert_eq!(s.get_room_users(7), None);
    assert_eq!(s.resolve_token("t10"), None);
    assert_eq!(s.resolve_token("t11"), None);
    assert_eq!(s.resolve_token("other"), Some((8, 10)));
    s.remove_room(7);
}

#[test]
fn happy_fan_out_reaches_only_the_other_user() {
    let mut s = room_seven();
    s.set_connection(7, 10, 1010);
    s.set_connection(7, 11, 1111);
    let from_10 = s.forward_targets(&frame(7, 10), 7, 10).unwrap();
    assert_eq!(from_10, vec![(11, 1111)]);
    let from_11 = s.forward_targets(&frame(7, 11), 7, 11).unwrap();
    assert_eq!(from_11, vec![(10, 1010)]);
}

#[test]
fn fan_out_skips_users_without_transport() {
    let mut s = room_seven();
    assert_eq!(s.admit_user(7, 12, "t12"), Ok(()));
    s.set_connection(7, 10, 1);
    s.set_connection(7, 12, 3);
    let mut got = s.peers(7, 10);
    got.sort();
    assert_eq!(got, vec![(12, 3)]);
    s.clear_connection(7, 12);
    assert!(s.peers(7, 10).is_empty());
}

#[test]
fn spoofed_identity_is_dropped() {
    let mut s = room_seven();
    s.set_connection(7, 10, 1);
    s.set_connection(7, 11, 2);
    assert_eq!(
        s.forward_targets(&frame(7, 11), 7, 10),
        Err(ForwardError::IdentityMismatch)
    );
    assert_eq!(
        s.forward_targets(&frame(8, 10), 7, 10),
        Err(ForwardError::IdentityMismatch)
    );
}

#[test]
fn short_datagram_is_dropped() {
    let s = room_seven();
    assert_eq!(
        s.forward_targets(&[0u8; 21], 7, 10),
        Err(ForwardError::HeaderTooShort)
    );
}

#[test]
fn removed_user_is_never_targeted_again() {
    let mut s = room_seven();
    s.set_connection(7, 10, 1);
    s.set_connection(7, 11, 2);
    s.remove_user(7, 11);
    s.set_connection(7, 11, 22);
    assert!(s.peers(7, 10).is_empty());
}

#[test]
fn room_teardown_drops_all_transports() {
    let mut s = room_seven();
    s.set_connection(7, 10, 1);
    s.set_connection(7, 11, 2);
    s.remove_room(7);
    assert!(s.peers(7, 10).is_empty());
    assert!(s.peers(7, 11).is_empty());
    s.add_room(7);
    s.set_connection(7, 11, 2);
    assert!(s.peers(7, 10).is_empty());
    assert_eq!(s.get_room_users(7), Some(vec![]));
}

#[test]
fn unknown_token_changes_nothing() {
    let s = room_seven();
    assert_eq!(s.authenticate(b"nope"), Err(AuthError::UnknownToken));
    assert_eq!(sorted(s.get_room_users(7).unwrap()), vec![10, 11]);
    assert_eq!(s.resolve_token("t10"), Some((7, 10)));
}

#[test]
fn auth_close_reasons() {
    assert_eq!(AUTH_CLOSE_CODE, 1);
    assert_eq!(AuthError::InvalidToken.close_reason(), "invalid token");
    assert_eq!(AuthError::UnknownToken.close_reason(), "unknown token");
}

#[test]
fn readmitted_user_does_not_bring_back_the_old_handle() {
    let mut s = room_seven();
    s.set_connection(7, 10, 1);
    s.set_connection(7, 11, 2);
    s.remove_user(7, 11);
    assert_eq!(s.admit_user(7, 11, "t11"), Ok(()));
    assert!(s.peers(7, 10).is_empty());
    s.set_connection(7, 11, 3);
    assert_eq!(s.peers(7, 10), vec![(11, 3)]);
}
