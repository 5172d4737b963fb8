use bytes::Bytes;
use vox_media::frame::{InFrame, OutFrame};
use vox_media::header::{MediaHeader, CODEC_OPUS, FLAG_END_OF_FRAME, MEDIA_TYPE_AUDIO};

#[test]
fn audio_frame_header_defaults() {
    let f = OutFrame::audio(7, 10, CODEC_OPUS, 5, 4800, Bytes::from_static(b"xyz"));
    assert_eq!(f.header.version, 1);
    assert_eq!(f.header.media_type, MEDIA_TYPE_AUDIO);
    assert_eq!(f.header.codec_id, CODEC_OPUS);
    assert_eq!(f.header.flags, FLAG_END_OF_FRAME);
    assert_eq!(f.header.sequence, 5);
    assert_eq!(f.header.timestamp, 4800);
    assert_eq!(f.header.spatial_id, 0);
    assert!(!f.header.dtx);
}

#[test]
fn out_frame_encodes_header_then_payload() {
    let f = OutFrame::audio(7, 10, CODEC_OPUS, 1, 48000, Bytes::from_static(&[9, 8, 7]));
    let bytes = f.encode();
    assert_eq!(bytes.len(), 25);
    assert_eq!(&bytes[..22], &f.header.encode()[..]);
    assert_eq!(&bytes[22..], &[9, 8, 7]);
}

#[test]
fn in_frame_splits_header_and_payload() {
    let f = OutFrame::audio(7, 10, CODEC_OPUS, 3, 2880, Bytes::from_static(&[1, 2, 3, 4]));
    let decoded = InFrame::decode(f.encode()).unwrap();
    assert_eq!(decoded.header, f.header);
    assert_eq!(&decoded.payload[..], &[1, 2, 3, 4]);
}

#[test]
fn in_frame_with_empty_payload_and_too_short() {
    let h = MediaHeader::parse(&[0u8; 22]).unwrap();
    let decoded = InFrame::decode(Bytes::from(h.encode().to_vec())).unwrap();
    assert!(decoded.payload.is_empty());
    assert!(InFrame::decode(Bytes::from_static(&[0u8; 21])).is_none());
}
