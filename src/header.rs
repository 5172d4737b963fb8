use vstd::prelude::*;

verus! {

/// Size of the fixed media frame header in bytes.
pub const HEADER_SIZE: usize = 22;

/// Media type of an audio frame.
pub const MEDIA_TYPE_AUDIO: u8 = 0;

/// Media type of a video frame.
pub const MEDIA_TYPE_VIDEO: u8 = 1;

/// Codec identifier of Opus.
pub const CODEC_OPUS: u8 = 1;

/// Current protocol version.
pub const PROTOCOL_VERSION: u8 = 1;

/// Flag bit: the frame starts a keyframe.
pub const FLAG_KEYFRAME: u8 = 0x80;

/// Flag bit: the frame ends a media frame.
pub const FLAG_END_OF_FRAME: u8 = 0x40;

/// Flag bit: the frame carries forward error correction data.
pub const FLAG_FEC: u8 = 0x20;

/// Flag bit: marker.
pub const FLAG_MARKER: u8 = 0x10;

/// Flag bit: a dependency descriptor follows the header.
pub const FLAG_HAS_DEP_DESC: u8 = 0x08;

/// Bit of the last header byte that carries the DTX flag.
pub const DTX_BIT: u8 = 0x80;

/// Media frame header: 22 bytes, big-endian, fixed layout.
///
/// ```text
/// byte 0       version
/// byte 1       media_type
/// byte 2       codec_id
/// byte 3       flags
/// bytes 4-7    room_id
/// bytes 8-11   user_id
/// bytes 12-15  sequence
/// bytes 16-19  timestamp
/// byte 20      spatial_id (high nibble) | temporal_id (low nibble)
/// byte 21      dtx (most significant bit)
/// ```
#[derive(Debug, Clone, Copy, PartialEq, Eq, Structural)]
pub struct MediaHeader {
    pub version: u8,
    pub media_type: u8,
    pub codec_id: u8,
    pub flags: u8,
    pub room_id: u32,
    pub user_id: u32,
    pub sequence: u32,
    pub timestamp: u32,
    pub spatial_id: u8,
    pub temporal_id: u8,
    pub dtx: bool,
}

/// The big-endian value of four bytes.
pub open spec fn be_u32(b0: u8, b1: u8, b2: u8, b3: u8) -> u32 {
    ((b0 as u32) << 24u32) | ((b1 as u32) << 16u32) | ((b2 as u32) << 8u32) | (b3 as u32)
}

/// The four big-endian bytes of a `u32`.
pub open spec fn be_bytes(x: u32) -> Seq<u8> {
    seq![(x >> 24u32) as u8, (x >> 16u32) as u8, (x >> 8u32) as u8, x as u8]
}

/// Whether the flags byte has the given mask set.
pub open spec fn has_flag(flags: u8, mask: u8) -> bool {
    flags & mask != 0
}

/// The header that the first 22 bytes of `b` describe, if there are that many.
pub open spec fn spec_parse(b: Seq<u8>) -> Option<MediaHeader> {
    if b.len() < HEADER_SIZE {
        None
    } else {
        Some(
            MediaHeader {
                version: b[0],
                media_type: b[1],
                codec_id: b[2],
                flags: b[3],
                room_id: be_u32(b[4], b[5], b[6], b[7]),
                user_id: be_u32(b[8], b[9], b[10], b[11]),
                sequence: be_u32(b[12], b[13], b[14], b[15]),
                timestamp: be_u32(b[16], b[17], b[18], b[19]),
                spatial_id: b[20] >> 4u8,
                temporal_id: b[20] & 0x0Fu8,
                dtx: b[21] & DTX_BIT != 0,
            },
        )
    }
}

/// The byte holding the two layer identifiers.
pub open spec fn layer_byte(h: MediaHeader) -> u8 {
    (h.spatial_id << 4u8) | (h.temporal_id & 0x0Fu8)
}

/// The byte holding the DTX flag.
pub open spec fn dtx_byte(h: MediaHeader) -> u8 {
    if h.dtx {
        DTX_BIT
    } else {
        0
    }
}

/// The 22 bytes that encode a header.
pub open spec fn spec_encode(h: MediaHeader) -> Seq<u8> {
    seq![h.version, h.media_type, h.codec_id, h.flags] + be_bytes(h.room_id) + be_bytes(h.user_id)
        + be_bytes(h.sequence) + be_bytes(h.timestamp) + seq![layer_byte(h), dtx_byte(h)]
}

fn read_be_u32(b0: u8, b1: u8, b2: u8, b3: u8) -> (r: u32)
    ensures
        r == be_u32(b0, b1, b2, b3),
{
    ((b0 as u32) << 24u32) | ((b1 as u32) << 16u32) | ((b2 as u32) << 8u32) | (b3 as u32)
}

impl MediaHeader {
    /// A header is well formed when both layer identifiers fit in a nibble,
    /// which is all that the wire format can carry of them.
    pub open spec fn wf(&self) -> bool {
        self.spatial_id < 16 && self.temporal_id < 16
    }

    /// Parse a media header from the first 22 bytes of a datagram.
    /// Returns `None` if the buffer is too short; any 22 bytes are a header.
    pub fn parse(data: &[u8]) -> (r: Option<MediaHeader>)
        ensures
            r == spec_parse(data@),
            r matches Some(h) ==> h.wf(),
    {
        if data.len() < HEADER_SIZE {
            return None;
        }
        let layers = data[20];
        let spatial_id = layers >> 4u8;
        let temporal_id = layers & 0x0Fu8;
        assert(spatial_id < 16 && temporal_id < 16) by (bit_vector)
            requires
                spatial_id == layers >> 4u8,
                temporal_id == layers & 0x0Fu8,
        ;
        Some(
            MediaHeader {
                version: data[0],
                media_type: data[1],
                codec_id: data[2],
                flags: data[3],
                room_id: read_be_u32(data[4], data[5], data[6], data[7]),
                user_id: read_be_u32(data[8], data[9], data[10], data[11]),
                sequence: read_be_u32(data[12], data[13], data[14], data[15]),
                timestamp: read_be_u32(data[16], data[17], data[18], data[19]),
                spatial_id,
                temporal_id,
                dtx: data[21] & DTX_BIT != 0,
            },
        )
    }

    /// Serialize the header into its 22 bytes (big-endian).
    pub fn encode(&self) -> (r: [u8; HEADER_SIZE])
        ensures
            r@ == spec_encode(*self),
    {
        let r = [
            self.version,
            self.media_type,
            self.codec_id,
            self.flags,
            (self.room_id >> 24u32) as u8,
            (self.room_id >> 16u32) as u8,
            (self.room_id >> 8u32) as u8,
            self.room_id as u8,
            (self.user_id >> 24u32) as u8,
            (self.user_id >> 16u32) as u8,
            (self.user_id >> 8u32) as u8,
            self.user_id as u8,
            (self.sequence >> 24u32) as u8,
            (self.sequence >> 16u32) as u8,
            (self.sequence >> 8u32) as u8,
            self.sequence as u8,
            (self.timestamp >> 24u32) as u8,
            (self.timestamp >> 16u32) as u8,
            (self.timestamp >> 8u32) as u8,
            self.timestamp as u8,
            (self.spatial_id << 4u8) | (self.temporal_id & 0x0Fu8),
            if self.dtx {
                DTX_BIT
            } else {
                0
            },
        ];
        assert(r@ =~= spec_encode(*self));
        r
    }

    /// Whether the keyframe flag is set.
    pub fn is_keyframe(&self) -> (r: bool)
        ensures
            r == has_flag(self.flags, FLAG_KEYFRAME),
    {
        self.flags & FLAG_KEYFRAME != 0
    }

    /// Whether the end-of-frame flag is set.
    pub fn is_end_of_frame(&self) -> (r: bool)
        ensures
            r == has_flag(self.flags, FLAG_END_OF_FRAME),
    {
        self.flags & FLAG_END_OF_FRAME != 0
    }

    /// Whether the dependency-descriptor flag is set.
    pub fn has_dep_desc(&self) -> (r: bool)
        ensures
            r == has_flag(self.flags, FLAG_HAS_DEP_DESC),
    {
        self.flags & FLAG_HAS_DEP_DESC != 0
    }
}

proof fn lemma_be_round_trip(x: u32)
    ensures
        be_u32((x >> 24u32) as u8, (x >> 16u32) as u8, (x >> 8u32) as u8, x as u8) == x,
{
    assert(((((x >> 24u32) as u8) as u32) << 24u32) | ((((x >> 16u32) as u8) as u32) << 16u32) | ((
    ((x >> 8u32) as u8) as u32) << 8u32) | ((x as u8) as u32) == x) by (bit_vector);
}

proof fn lemma_bytes_round_trip(b0: u8, b1: u8, b2: u8, b3: u8)
    ensures
        be_bytes(be_u32(b0, b1, b2, b3)) == seq![b0, b1, b2, b3],
{
    let x = be_u32(b0, b1, b2, b3);
    assert((x >> 24u32) as u8 == b0 && (x >> 16u32) as u8 == b1 && (x >> 8u32) as u8 == b2 && x as u8
        == b3) by (bit_vector)
        requires
            x == ((b0 as u32) << 24u32) | ((b1 as u32) << 16u32) | ((b2 as u32) << 8u32) | (
            b3 as u32),
    ;
    assert(be_bytes(x) =~= seq![b0, b1, b2, b3]);
}

/// Encoding a well-formed header and parsing the bytes gives the header back,
/// every flag bit included.
pub proof fn lemma_parse_encode(h: MediaHeader)
    requires
        h.wf(),
    ensures
        spec_encode(h).len() == HEADER_SIZE,
        spec_parse(spec_encode(h)) == Some(h),
        spec_parse(spec_encode(h)).unwrap().flags == h.flags,
{
    let b = spec_encode(h);
    lemma_be_round_trip(h.room_id);
    lemma_be_round_trip(h.user_id);
    lemma_be_round_trip(h.sequence);
    lemma_be_round_trip(h.timestamp);
    let s = h.spatial_id;
    let t = h.temporal_id;
    let l = layer_byte(h);
    assert(l >> 4u8 == s && l & 0x0Fu8 == t) by (bit_vector)
        requires
            l == (s << 4u8) | (t & 0x0Fu8),
            s < 16,
            t < 16,
    ;
    assert(0x80u8 & 0x80u8 != 0 && 0u8 & 0x80u8 == 0) by (bit_vector);
}

/// Parsing at least 22 bytes and encoding the header gives back those 22 bytes,
/// provided the reserved low bits of the last byte are clear.
pub proof fn lemma_encode_parse(b: Seq<u8>)
    requires
        b.len() >= HEADER_SIZE,
        b[21] & 0x7Fu8 == 0,
    ensures
        spec_encode(spec_parse(b).unwrap()) == b.subrange(0, HEADER_SIZE as int),
{
    let h = spec_parse(b).unwrap();
    lemma_bytes_round_trip(b[4], b[5], b[6], b[7]);
    lemma_bytes_round_trip(b[8], b[9], b[10], b[11]);
    lemma_bytes_round_trip(b[12], b[13], b[14], b[15]);
    lemma_bytes_round_trip(b[16], b[17], b[18], b[19]);
    let x = b[20];
    assert(((x >> 4u8) << 4u8) | ((x & 0x0Fu8) & 0x0Fu8) == x) by (bit_vector);
    let y = b[21];
    assert((if y & 0x80u8 != 0 {
        0x80u8
    } else {
        0u8
    }) == y) by (bit_vector)
        requires
            y & 0x7Fu8 == 0,
    ;
    assert(spec_encode(h) =~= b.subrange(0, HEADER_SIZE as int));
}

} // verus!
