use bytes::Bytes;
use vstd::prelude::*;

use crate::header::{
    spec_encode, spec_parse, MediaHeader, FLAG_END_OF_FRAME, HEADER_SIZE, MEDIA_TYPE_AUDIO,
    PROTOCOL_VERSION,
};

verus! {

/// `bytes::Bytes`, a shared immutable byte buffer; what it holds is
/// `bytes_content`.
#[verifier::external_type_specification]
#[verifier::external_body]
pub struct ExBytes(Bytes);

/// The bytes that a `Bytes` buffer holds.
pub uninterp spec fn bytes_content(b: Bytes) -> Seq<u8>;

/// Relies on `impl From<Vec<u8>> for Bytes`: the buffer takes over the
/// vector's bytes as they are.
#[verifier::external_body]
fn bytes_from_vec(v: Vec<u8>) -> (r: Bytes)
    ensures
        bytes_content(r) == v@,
{
    Bytes::from(v)
}

/// Relies on `impl AsRef<[u8]> for Bytes`: a view of the bytes held.
#[verifier::external_body]
fn bytes_as_slice(b: &Bytes) -> (r: &[u8])
    ensures
        r@ == bytes_content(*b),
{
    b.as_ref()
}

/// Relies on `Bytes::slice` with a range `start..`: the bytes from `start`
/// on, sharing the buffer. It panics when `start` is past the end.
#[verifier::external_body]
fn bytes_tail(b: &Bytes, start: usize) -> (r: Bytes)
    requires
        start <= bytes_content(*b).len(),
    ensures
        bytes_content(r) == bytes_content(*b).subrange(start as int, bytes_content(*b).len() as int),
{
    b.slice(start..)
}

/// The header of an outbound audio frame.
pub open spec fn audio_header(
    room_id: u32,
    user_id: u32,
    codec_id: u8,
    seq: u32,
    timestamp: u32,
) -> MediaHeader {
    MediaHeader {
        version: PROTOCOL_VERSION,
        media_type: MEDIA_TYPE_AUDIO,
        codec_id,
        flags: FLAG_END_OF_FRAME,
        room_id,
        user_id,
        sequence: seq,
        timestamp,
        spatial_id: 0,
        temporal_id: 0,
        dtx: false,
    }
}

/// Outbound media frame to send to the SFU.
pub struct OutFrame {
    pub header: MediaHeader,
    pub payload: Bytes,
}

/// Inbound media frame received from the SFU.
pub struct InFrame {
    pub header: MediaHeader,
    pub payload: Bytes,
}

impl OutFrame {
    /// An audio frame: current protocol version, end-of-frame flag set, base
    /// layers, no DTX.
    pub fn audio(
        room_id: u32,
        user_id: u32,
        codec_id: u8,
        seq: u32,
        timestamp: u32,
        payload: Bytes,
    ) -> (r: OutFrame)
        ensures
            r.header == audio_header(room_id, user_id, codec_id, seq, timestamp),
            r.payload == payload,
    {
        OutFrame {
            header: MediaHeader {
                version: PROTOCOL_VERSION,
                media_type: MEDIA_TYPE_AUDIO,
                codec_id,
                flags: FLAG_END_OF_FRAME,
                room_id,
                user_id,
                sequence: seq,
                timestamp,
                spatial_id: 0,
                temporal_id: 0,
                dtx: false,
            },
            payload,
        }
    }

    /// The datagram: the 22 header bytes, then the payload.
    pub fn encode(&self) -> (r: Bytes)
        ensures
            bytes_content(r) == spec_encode(self.header) + bytes_content(self.payload),
    {
        let header = self.header.encode();
        let payload = bytes_as_slice(&self.payload);
        let mut buf: Vec<u8> = Vec::new();
        for i in 0..HEADER_SIZE
            invariant
                header@ == spec_encode(self.header),
                buf@ == header@.take(i as int),
        {
            assert(header@.take(i + 1) =~= header@.take(i as int).push(header[i as int]));
            buf.push(header[i]);
        }
        assert(buf@ =~= header@);
        for j in 0..payload.len()
            invariant
                buf@ == header@ + payload@.take(j as int),
        {
            assert(payload@.take(j + 1) =~= payload@.take(j as int).push(payload@[j as int]));
            buf.push(payload[j]);
        }
        assert(payload@.take(payload@.len() as int) =~= payload@);
        bytes_from_vec(buf)
    }
}

impl InFrame {
    /// Splits a datagram into its header and payload; `None` when it is
    /// shorter than a header.
    pub fn decode(data: Bytes) -> (r: Option<InFrame>)
        ensures
            r is None <==> bytes_content(data).len() < HEADER_SIZE,
            r matches Some(f) ==> {
                &&& Some(f.header) == spec_parse(bytes_content(data))
                &&& bytes_content(f.payload) == bytes_content(data).subrange(
                    HEADER_SIZE as int,
                    bytes_content(data).len() as int,
                )
            },
    {
        let header = MediaHeader::parse(bytes_as_slice(&data));
        match header {
            None => None,
            Some(header) => {
                let payload = bytes_tail(&data, HEADER_SIZE);
                Some(InFrame { header, payload })
            },
        }
    }
}

} // verus!
