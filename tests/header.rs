use vox_media::header::{
    MediaHeader, FLAG_END_OF_FRAME, FLAG_FEC, FLAG_HAS_DEP_DESC, FLAG_KEYFRAME, FLAG_MARKER,
    HEADER_SIZE,
};

#[test]
fn parse_valid_header() {
    let mut buf = [0u8; 22];
    buf[0] = 1; // version
    buf[1] = 0; // audio
    buf[2] = 1; // opus
    buf[3] = FLAG_KEYFRAME | FLAG_END_OF_FRAME;
    buf[4..8].copy_from_slice(&100u32.to_be_bytes()); // room_id
    buf[8..12].copy_from_slice(&42u32.to_be_bytes()); // user_id
    buf[12..16].copy_from_slice(&1u32.to_be_bytes()); // sequence
    buf[16..20].copy_from_slice(&48000u32.to_be_bytes()); // timestamp
    buf[20] = 0x21; // spatial=2, temporal=1
    buf[21] = 0x80; // dtx=true

    let h = MediaHeader::parse(&buf).unwrap();
    assert_eq!(h.version, 1);
    assert_eq!(h.media_type, 0);
    assert_eq!(h.codec_id, 1);
    assert!(h.is_keyframe());
    assert!(h.is_end_of_frame());
    assert_eq!(h.room_id, 100);
    assert_eq!(h.user_id, 42);
    assert_eq!(h.sequence, 1);
    assert_eq!(h.timestamp, 48000);
    assert_eq!(h.spatial_id, 2);
    assert_eq!(h.temporal_id, 1);
    assert!(h.dtx);
}

#[test]
fn parse_too_short() {
    assert!(MediaHeader::parse(&[0u8; 10]).is_none());
}

fn sample_header() -> MediaHeader {
    MediaHeader {
        version: 1,
        media_type: 1,
        codec_id: 7,
        flags: FLAG_KEYFRAME | FLAG_FEC | FLAG_MARKER | FLAG_HAS_DEP_DESC | 0x03,
        room_id: 0x0102_0304,
        user_id: 0xA0B0_C0D0,
        sequence: u32::MAX,
        timestamp: 48000,
        spatial_id: 15,
        temporal_id: 9,
        dtx: true,
    }
}

#[test]
fn encode_exact_bytes() {
    let bytes = sample_header().encode();
    assert_eq!(
        bytes,
        [
            1, 1, 7, 0xBB, 0x01, 0x02, 0x03, 0x04, 0xA0, 0xB0, 0xC0, 0xD0, 0xFF, 0xFF, 0xFF, 0xFF,
            0x00, 0x00, 0xBB, 0x80, 0xF9, 0x80
        ]
    );
    assert_eq!(bytes.len(), HEADER_SIZE);
}

#[test]
fn header_round_trip_keeps_every_field_and_flag() {
    let h = sample_header();
    let back = MediaHeader::parse(&h.encode()).unwrap();
    assert_eq!(back, h);
    assert!(back.is_keyframe());
    assert!(!back.is_end_of_frame());
    assert!(back.has_dep_desc());
    assert_eq!(back.flags, h.flags);
}

#[test]
fn encode_of_parse_gives_the_first_bytes_back() {
    let mut b: Vec<u8> = (0u8..30).map(|i| i.wrapping_mul(37)).collect();
    b[21] = 0x80;
    let h = MediaHeader::parse(&b).unwrap();
    assert_eq!(&h.encode()[..], &b[..HEADER_SIZE]);
}

#[test]
fn parse_exactly_header_size_and_one_short() {
    assert!(MediaHeader::parse(&[0u8; 22]).is_some());
    assert!(MediaHeader::parse(&[0u8; 21]).is_none());
    assert!(MediaHeader::parse(&[]).is_none());
}

#[test]
fn dtx_reads_only_the_top_bit() {
    let mut b = [0u8; 22];
    b[21] = 0x7F;
    assert!(!MediaHeader::parse(&b).unwrap().dtx);
}
