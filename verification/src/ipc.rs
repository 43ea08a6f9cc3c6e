//! The wire protocol between the DMR receiver and the injection entity.
//!
//! One datagram carries one [`FlowDmrFrame`]. All integers are little-endian.
//!
//! Common header (8 bytes):
//! ```text
//!   off  field      type
//!   0    magic      u16   = 0xFD30
//!   2    version    u8    = 1
//!   3    kind       u8    (see FlowDmrKind)
//!   4    stream_id  u32   per-call correlation id
//! ```
//!
//! The payload follows the header:
//! - `CallStart` : source_id u32, dmr_tg u32, target_gssi u32, priority u8
//! - `Voice`     : seq u32, flags u16, n_samples u16, pcm[n_samples] i16
//! - `SrcChange` : source_id u32
//! - `CallEnd`   : (empty)
//! - `Keepalive` : (empty)
use crate::bytes::{push_le16, push_le32, push_samples, read_le16, read_le32, read_sample};
use crate::text::{push_decimal, push_hex4};
use vstd::prelude::*;
use vstd::slice::slice_subrange;

verus! {

/// Magic marker at the start of every frame.
pub const FLOWDMR_MAGIC: u16 = 0xFD30;

/// Protocol version.
pub const FLOWDMR_VERSION: u8 = 1;

/// PCM samples in one voice frame (30 ms at 8 kHz).
pub const PCM_SAMPLES_PER_FRAME: usize = 240;

/// Voice flag: first voice frame of a call.
pub const VOICE_FLAG_FIRST: u16 = 1;

/// Voice flag: last voice frame of a call.
pub const VOICE_FLAG_LAST: u16 = 2;

/// Bytes in the common header.
pub const HEADER_LEN: usize = 8;

/// Frame discriminator.
#[derive(Debug, Clone, Copy, PartialEq, Eq, Structural)]
pub enum FlowDmrKind {
    CallStart,
    Voice,
    CallEnd,
    SrcChange,
    Keepalive,
}

/// The body of a frame.
#[derive(Debug, Clone, PartialEq)]
pub enum FlowDmrBody {
    /// A new DMR transmission started.
    CallStart {
        /// DMR source / radio id of the talker.
        source_id: u32,
        /// DMR talkgroup (for display).
        dmr_tg: u32,
        /// TETRA GSSI to inject on; it must be local to the cell.
        target_gssi: u32,
        /// TETRA call priority (0 = normal).
        priority: u8,
    },
    /// One 30 ms PCM frame (mono, 8 kHz).
    Voice {
        /// Per-call sequence number.
        seq: u32,
        /// Bitfield of `VOICE_FLAG_*`.
        flags: u16,
        /// PCM samples; expected length [`PCM_SAMPLES_PER_FRAME`].
        pcm: Vec<i16>,
    },
    /// The DMR transmission ended.
    CallEnd,
    /// The talker changed within the same DMR call.
    SrcChange {
        /// New DMR source / radio id.
        source_id: u32,
    },
    /// Liveness ping.
    Keepalive,
}

/// One frame.
#[derive(Debug, Clone, PartialEq)]
pub struct FlowDmrFrame {
    /// Correlates the frames of one DMR transmission.
    pub stream_id: u32,
    pub body: FlowDmrBody,
}

/// Why a datagram is no frame.
#[derive(Debug, Clone, Copy, PartialEq, Eq, Structural)]
pub enum DecodeError {
    TooShort,
    BadMagic(u16),
    BadVersion(u8),
    BadKind(u8),
    Truncated,
}

/// Mathematical value of a [`FlowDmrBody`].
pub enum BodyView {
    CallStart { source_id: u32, dmr_tg: u32, target_gssi: u32, priority: u8 },
    Voice { seq: u32, flags: u16, pcm: Seq<i16> },
    CallEnd,
    SrcChange { source_id: u32 },
    Keepalive,
}

/// Mathematical value of a [`FlowDmrFrame`].
pub struct FrameView {
    pub stream_id: u32,
    pub body: BodyView,
}

impl View for FlowDmrBody {
    type V = BodyView;

    open spec fn view(&self) -> BodyView {
        match *self {
            FlowDmrBody::CallStart { source_id, dmr_tg, target_gssi, priority } =>
                BodyView::CallStart { source_id, dmr_tg, target_gssi, priority },
            FlowDmrBody::Voice { seq, flags, pcm } => BodyView::Voice { seq, flags, pcm: pcm@ },
            FlowDmrBody::CallEnd => BodyView::CallEnd,
            FlowDmrBody::SrcChange { source_id } => BodyView::SrcChange { source_id },
            FlowDmrBody::Keepalive => BodyView::Keepalive,
        }
    }
}

impl View for FlowDmrFrame {
    type V = FrameView;

    open spec fn view(&self) -> FrameView {
        FrameView { stream_id: self.stream_id, body: self.body@ }
    }
}

/// The kind of a body.
pub open spec fn kind_of(body: BodyView) -> FlowDmrKind {
    match body {
        BodyView::CallStart { .. } => FlowDmrKind::CallStart,
        BodyView::Voice { .. } => FlowDmrKind::Voice,
        BodyView::CallEnd => FlowDmrKind::CallEnd,
        BodyView::SrcChange { .. } => FlowDmrKind::SrcChange,
        BodyView::Keepalive => FlowDmrKind::Keepalive,
    }
}

/// The byte that stands for a kind on the wire.
pub open spec fn kind_code(kind: FlowDmrKind) -> u8 {
    match kind {
        FlowDmrKind::CallStart => 1,
        FlowDmrKind::Voice => 2,
        FlowDmrKind::CallEnd => 3,
        FlowDmrKind::SrcChange => 4,
        FlowDmrKind::Keepalive => 5,
    }
}

/// The payload bytes of a body.
pub open spec fn body_bytes(body: BodyView) -> Seq<u8> {
    match body {
        BodyView::CallStart { source_id, dmr_tg, target_gssi, priority } =>
            crate::bytes::le32(source_id) + crate::bytes::le32(dmr_tg)
                + crate::bytes::le32(target_gssi) + seq![priority],
        BodyView::Voice { seq, flags, pcm } =>
            crate::bytes::le32(seq) + crate::bytes::le16(flags)
                + crate::bytes::le16((pcm.len() % 65536) as u16)
                + crate::bytes::sample_bytes(pcm),
        BodyView::SrcChange { source_id } => crate::bytes::le32(source_id),
        BodyView::CallEnd => seq![],
        BodyView::Keepalive => seq![],
    }
}

/// The header bytes of a frame.
pub open spec fn header_bytes(kind: FlowDmrKind, stream_id: u32) -> Seq<u8> {
    crate::bytes::le16(FLOWDMR_MAGIC) + seq![FLOWDMR_VERSION, kind_code(kind)]
        + crate::bytes::le32(stream_id)
}

/// The datagram that carries a frame.
pub open spec fn frame_bytes(frame: FrameView) -> Seq<u8> {
    header_bytes(kind_of(frame.body), frame.stream_id) + body_bytes(frame.body)
}

/// The number of samples that the sample count of a voice frame can state.
pub open spec fn countable(frame: FrameView) -> bool {
    frame.body matches BodyView::Voice { pcm, .. } ==> pcm.len() <= 65535
}

/// The 32-bit number at byte `at`.
pub open spec fn u32_at(b: Seq<u8>, at: int) -> u32 {
    crate::bytes::from_le32(b[at], b[at + 1], b[at + 2], b[at + 3])
}

/// The 16-bit number at byte `at`.
pub open spec fn u16_at(b: Seq<u8>, at: int) -> u16 {
    crate::bytes::from_le16(b[at], b[at + 1])
}

/// The body of kind `kind` in a datagram, if the datagram is long enough.
pub open spec fn body_at(kind: FlowDmrKind, b: Seq<u8>) -> Option<BodyView> {
    match kind {
        FlowDmrKind::CallStart => if b.len() < 21 {
            None
        } else {
            Some(
                BodyView::CallStart {
                    source_id: u32_at(b, 8),
                    dmr_tg: u32_at(b, 12),
                    target_gssi: u32_at(b, 16),
                    priority: b[20],
                },
            )
        },
        FlowDmrKind::Voice => if b.len() < 16 || b.len() < 16 + 2 * u16_at(b, 14) {
            None
        } else {
            Some(
                BodyView::Voice {
                    seq: u32_at(b, 8),
                    flags: u16_at(b, 12),
                    pcm: crate::bytes::samples_at(b, 16, u16_at(b, 14) as nat),
                },
            )
        },
        FlowDmrKind::SrcChange => if b.len() < 12 {
            None
        } else {
            Some(BodyView::SrcChange { source_id: u32_at(b, 8) })
        },
        FlowDmrKind::CallEnd => Some(BodyView::CallEnd),
        FlowDmrKind::Keepalive => Some(BodyView::Keepalive),
    }
}

/// The kind that a wire byte stands for.
pub open spec fn kind_from(code: u8) -> Option<FlowDmrKind> {
    if code == 1 {
        Some(FlowDmrKind::CallStart)
    } else if code == 2 {
        Some(FlowDmrKind::Voice)
    } else if code == 3 {
        Some(FlowDmrKind::CallEnd)
    } else if code == 4 {
        Some(FlowDmrKind::SrcChange)
    } else if code == 5 {
        Some(FlowDmrKind::Keepalive)
    } else {
        None
    }
}

/// What a datagram means: the frame it carries, or the first thing wrong with it.
pub open spec fn parse_frame(b: Seq<u8>) -> Result<FrameView, DecodeError> {
    if b.len() < HEADER_LEN {
        Err(DecodeError::TooShort)
    } else if u16_at(b, 0) != FLOWDMR_MAGIC {
        Err(DecodeError::BadMagic(u16_at(b, 0)))
    } else if b[2] != FLOWDMR_VERSION {
        Err(DecodeError::BadVersion(b[2]))
    } else {
        match kind_from(b[3]) {
            None => Err(DecodeError::BadKind(b[3])),
            Some(kind) => match body_at(kind, b) {
                None => Err(DecodeError::Truncated),
                Some(body) => Ok(FrameView { stream_id: u32_at(b, 4), body }),
            },
        }
    }
}

/// The text that describes a decode error.
pub open spec fn decode_error_text(e: DecodeError) -> Seq<char> {
    match e {
        DecodeError::TooShort => "datagram shorter than header"@,
        DecodeError::BadMagic(m) => "bad magic 0x"@ + crate::text::hex4(m),
        DecodeError::BadVersion(v) => "unsupported version "@ + crate::text::decimal(v as nat),
        DecodeError::BadKind(k) => "unknown kind "@ + crate::text::decimal(k as nat),
        DecodeError::Truncated => "payload truncated"@,
    }
}

/// Every frame that can state its sample count is read back from its own
/// datagram unchanged.
pub proof fn law_decode_of_encode(frame: FrameView)
    requires
        countable(frame),
    ensures
        parse_frame(frame_bytes(frame)) == Ok::<FrameView, DecodeError>(frame),
{
    let b = frame_bytes(frame);
    let kind = kind_of(frame.body);
    crate::bytes::lemma_le16_round_trip(FLOWDMR_MAGIC);
    crate::bytes::lemma_le32_round_trip(frame.stream_id);
    assert(b[4] == crate::bytes::le32(frame.stream_id)[0]);
    assert(b[5] == crate::bytes::le32(frame.stream_id)[1]);
    assert(b[6] == crate::bytes::le32(frame.stream_id)[2]);
    assert(b[7] == crate::bytes::le32(frame.stream_id)[3]);
    assert(u32_at(b, 4) == frame.stream_id);
    assert(u16_at(b, 0) == FLOWDMR_MAGIC);
    assert(kind_from(b[3]) == Some(kind));
    match frame.body {
        BodyView::CallStart { source_id, dmr_tg, target_gssi, priority } => {
            crate::bytes::lemma_le32_round_trip(source_id);
            crate::bytes::lemma_le32_round_trip(dmr_tg);
            crate::bytes::lemma_le32_round_trip(target_gssi);
        },
        BodyView::Voice { seq, flags, pcm } => {
            crate::bytes::lemma_le32_round_trip(seq);
            crate::bytes::lemma_le16_round_trip(flags);
            crate::bytes::lemma_le16_round_trip((pcm.len() % 65536) as u16);
            assert(b.subrange(16, 16 + 2 * pcm.len() as int) =~= crate::bytes::sample_bytes(pcm));
            assert(u16_at(b, 14) == pcm.len());
            crate::bytes::lemma_samples_round_trip(b, 16, pcm);
        },
        BodyView::SrcChange { source_id } => {
            crate::bytes::lemma_le32_round_trip(source_id);
        },
        _ => {},
    }
}

/// A datagram that decodes starts with the bytes of the frame it decodes to:
/// each frame has one encoding.
pub proof fn law_encode_of_decode(b: Seq<u8>)
    requires
        parse_frame(b) is Ok,
    ensures
        frame_bytes(parse_frame(b)->Ok_0).len() <= b.len(),
        b.take(frame_bytes(parse_frame(b)->Ok_0).len() as int) == frame_bytes(
            parse_frame(b)->Ok_0,
        ),
{
    let frame = parse_frame(b)->Ok_0;
    let e = frame_bytes(frame);
    let kind = kind_of(frame.body);
    crate::bytes::lemma_from_le16_round_trip(b[0], b[1]);
    crate::bytes::lemma_from_le32_round_trip(b[4], b[5], b[6], b[7]);
    assert(header_bytes(kind, frame.stream_id) =~= b.take(8));
    match frame.body {
        BodyView::CallStart { source_id, dmr_tg, target_gssi, priority } => {
            crate::bytes::lemma_from_le32_round_trip(b[8], b[9], b[10], b[11]);
            crate::bytes::lemma_from_le32_round_trip(b[12], b[13], b[14], b[15]);
            crate::bytes::lemma_from_le32_round_trip(b[16], b[17], b[18], b[19]);
            assert(body_bytes(frame.body) =~= b.subrange(8, 21));
            assert(e =~= b.take(21));
        },
        BodyView::Voice { seq, flags, pcm } => {
            crate::bytes::lemma_from_le32_round_trip(b[8], b[9], b[10], b[11]);
            crate::bytes::lemma_from_le16_round_trip(b[12], b[13]);
            crate::bytes::lemma_from_le16_round_trip(b[14], b[15]);
            crate::bytes::lemma_sample_bytes_round_trip(b, 16, pcm.len());
            assert((pcm.len() % 65536) as u16 == u16_at(b, 14));
            assert(body_bytes(frame.body) =~= b.subrange(8, 16 + 2 * pcm.len() as int));
            assert(e =~= b.take(16 + 2 * pcm.len() as int));
        },
        BodyView::SrcChange { source_id } => {
            crate::bytes::lemma_from_le32_round_trip(b[8], b[9], b[10], b[11]);
            assert(body_bytes(frame.body) =~= b.subrange(8, 12));
            assert(e =~= b.take(12));
        },
        _ => {
            assert(e =~= b.take(8));
        },
    }
}

/// Bytes after the payload change nothing.
pub proof fn law_trailing_bytes_ignored(b: Seq<u8>, tail: Seq<u8>)
    requires
        parse_frame(b) is Ok,
    ensures
        parse_frame(b + tail) == parse_frame(b),
{
    let c = b + tail;
    assert(forall|i: int| 0 <= i < b.len() ==> c[i] == b[i]);
    assert(u32_at(c, 4) == u32_at(b, 4));
    let kind = kind_from(b[3])->0;
    match kind {
        FlowDmrKind::Voice => {
            let n = u16_at(b, 14) as nat;
            assert(u16_at(c, 14) == u16_at(b, 14));
            assert(crate::bytes::samples_at(c, 16, n) =~= crate::bytes::samples_at(b, 16, n));
        },
        _ => {},
    }
}

/// A datagram cut anywhere before its end is refused.
pub proof fn law_cut_datagram_refused(frame: FrameView, n: int)
    requires
        countable(frame),
        0 <= n < frame_bytes(frame).len(),
    ensures
        parse_frame(frame_bytes(frame).take(n)) == (if n < HEADER_LEN {
            Err::<FrameView, DecodeError>(DecodeError::TooShort)
        } else {
            Err(DecodeError::Truncated)
        }),
{
    let b = frame_bytes(frame);
    let c = b.take(n);
    law_decode_of_encode(frame);
    assert(forall|i: int| 0 <= i < n ==> c[i] == b[i]);
    if n >= 8 {
        assert(u16_at(c, 0) == u16_at(b, 0));
        match frame.body {
            BodyView::Voice { seq, flags, pcm } => {
                assert(u16_at(b, 14) == pcm.len()) by {
                    crate::bytes::lemma_le16_round_trip((pcm.len() % 65536) as u16);
                }
                if n >= 16 {
                    assert(u16_at(c, 14) == u16_at(b, 14));
                }
            },
            _ => {},
        }
    }
}

/// A voice frame of `n` samples takes 16 + 2n bytes; the standard frame fits
/// far inside one Ethernet packet.
pub proof fn law_voice_datagram_size(stream_id: u32, seq: u32, flags: u16, pcm: Seq<i16>)
    ensures
        frame_bytes(FrameView { stream_id, body: BodyView::Voice { seq, flags, pcm } }).len() == 16
            + 2 * pcm.len(),
        pcm.len() == PCM_SAMPLES_PER_FRAME ==> frame_bytes(
            FrameView { stream_id, body: BodyView::Voice { seq, flags, pcm } },
        ).len() == 496,
{
}

impl FlowDmrKind {
    /// The kind that a wire byte stands for.
    pub fn from_u8(v: u8) -> (r: Option<Self>)
        ensures
            r == kind_from(v),
    {
        match v {
            1 => Some(FlowDmrKind::CallStart),
            2 => Some(FlowDmrKind::Voice),
            3 => Some(FlowDmrKind::CallEnd),
            4 => Some(FlowDmrKind::SrcChange),
            5 => Some(FlowDmrKind::Keepalive),
            _ => None,
        }
    }

    /// The byte that stands for this kind on the wire.
    pub fn code(self) -> (r: u8)
        ensures
            r == kind_code(self),
    {
        match self {
            FlowDmrKind::CallStart => 1,
            FlowDmrKind::Voice => 2,
            FlowDmrKind::CallEnd => 3,
            FlowDmrKind::SrcChange => 4,
            FlowDmrKind::Keepalive => 5,
        }
    }
}

impl FlowDmrFrame {
    pub fn new(stream_id: u32, body: FlowDmrBody) -> (r: Self)
        ensures
            r.stream_id == stream_id,
            r.body == body,
    {
        FlowDmrFrame { stream_id, body }
    }

    pub fn kind(&self) -> (r: FlowDmrKind)
        ensures
            r == kind_of(self@.body),
    {
        match &self.body {
            FlowDmrBody::CallStart { .. } => FlowDmrKind::CallStart,
            FlowDmrBody::Voice { .. } => FlowDmrKind::Voice,
            FlowDmrBody::CallEnd => FlowDmrKind::CallEnd,
            FlowDmrBody::SrcChange { .. } => FlowDmrKind::SrcChange,
            FlowDmrBody::Keepalive => FlowDmrKind::Keepalive,
        }
    }

    /// Serialize into a freshly allocated byte buffer (one UDP datagram).
    pub fn encode(&self) -> (r: Vec<u8>)
        ensures
            r@ == frame_bytes(self@),
    {
        let mut buf: Vec<u8> = Vec::with_capacity(HEADER_LEN + 16);
        push_le16(&mut buf, FLOWDMR_MAGIC);
        buf.push(FLOWDMR_VERSION);
        buf.push(self.kind().code());
        push_le32(&mut buf, self.stream_id);
        assert(buf@ =~= header_bytes(kind_of(self@.body), self.stream_id));
        match &self.body {
            FlowDmrBody::CallStart { source_id, dmr_tg, target_gssi, priority } => {
                push_le32(&mut buf, *source_id);
                push_le32(&mut buf, *dmr_tg);
                push_le32(&mut buf, *target_gssi);
                buf.push(*priority);
            },
            FlowDmrBody::Voice { seq, flags, pcm } => {
                push_le32(&mut buf, *seq);
                push_le16(&mut buf, *flags);
                push_le16(&mut buf, (pcm.len() % 65536) as u16);
                push_samples(&mut buf, pcm.as_slice());
            },
            FlowDmrBody::SrcChange { source_id } => {
                push_le32(&mut buf, *source_id);
            },
            FlowDmrBody::CallEnd | FlowDmrBody::Keepalive => {},
        }
        assert(buf@ =~= frame_bytes(self@));
        buf
    }

    /// Parse a frame from a received datagram.
    pub fn decode(bytes: &[u8]) -> (r: Result<Self, DecodeError>)
        ensures
            match parse_frame(bytes@) {
                Ok(frame) => r matches Ok(f) && f@ == frame,
                Err(e) => r == Err::<Self, DecodeError>(e),
            },
    {
        if bytes.len() < HEADER_LEN {
            return Err(DecodeError::TooShort);
        }
        let magic = read_le16(bytes[0], bytes[1]);
        if magic != FLOWDMR_MAGIC {
            return Err(DecodeError::BadMagic(magic));
        }
        let version = bytes[2];
        if version != FLOWDMR_VERSION {
            return Err(DecodeError::BadVersion(version));
        }
        let kind = match FlowDmrKind::from_u8(bytes[3]) {
            Some(k) => k,
            None => return Err(DecodeError::BadKind(bytes[3])),
        };
        let stream_id = read_le32(bytes[4], bytes[5], bytes[6], bytes[7]);
        let mut r = Reader::new(slice_subrange(bytes, HEADER_LEN, bytes.len()));
        let ghost rest = bytes@.subrange(8, bytes@.len() as int);
        let body = match kind {
            FlowDmrKind::CallStart => {
                let source_id = r.u32()?;
                let dmr_tg = r.u32()?;
                let target_gssi = r.u32()?;
                let priority = r.u8()?;
                FlowDmrBody::CallStart { source_id, dmr_tg, target_gssi, priority }
            },
            FlowDmrKind::Voice => {
                let seq = r.u32()?;
                let flags = r.u16()?;
                let n = r.u16()? as usize;
                let mut pcm: Vec<i16> = Vec::with_capacity(n);
                let mut i: usize = 0;
                while i < n
                    invariant
                        i <= n,
                        n == u16_at(bytes@, 14),
                        bytes@.len() >= 16,
                        kind == FlowDmrKind::Voice,
                        parse_frame(bytes@) == (match body_at(kind, bytes@) {
                            None => Err::<FrameView, DecodeError>(DecodeError::Truncated),
                            Some(body) => Ok(FrameView { stream_id, body }),
                        }),
                        r.buf@ == bytes@.subrange(8, bytes@.len() as int),
                        r.pos == 8 + 2 * i,
                        r.pos <= r.buf@.len(),
                        pcm@ == crate::bytes::samples_at(bytes@, 16, i as nat),
                    decreases n - i,
                {
                    let s = r.i16()?;
                    pcm.push(s);
                    i = i + 1;
                    assert(pcm@ =~= crate::bytes::samples_at(bytes@, 16, i as nat));
                }
                FlowDmrBody::Voice { seq, flags, pcm }
            },
            FlowDmrKind::SrcChange => {
                let source_id = r.u32()?;
                FlowDmrBody::SrcChange { source_id }
            },
            FlowDmrKind::CallEnd => FlowDmrBody::CallEnd,
            FlowDmrKind::Keepalive => FlowDmrBody::Keepalive,
        };
        Ok(FlowDmrFrame { stream_id, body })
    }
}

impl DecodeError {
    /// The text that describes the error.
    pub fn message(&self) -> (r: String)
        ensures
            r@ == decode_error_text(*self),
    {
        match self {
            DecodeError::TooShort => "datagram shorter than header".to_string(),
            DecodeError::BadMagic(m) => {
                let mut s = "bad magic 0x".to_string();
                push_hex4(&mut s, *m);
                s
            },
            DecodeError::BadVersion(v) => {
                let mut s = "unsupported version ".to_string();
                push_decimal(&mut s, *v as u64);
                s
            },
            DecodeError::BadKind(k) => {
                let mut s = "unknown kind ".to_string();
                push_decimal(&mut s, *k as u64);
                s
            },
            DecodeError::Truncated => "payload truncated".to_string(),
        }
    }
}

/// Minimal little-endian byte reader.
struct Reader<'a> {
    buf: &'a [u8],
    pos: usize,
}

impl<'a> Reader<'a> {
    spec fn wf(&self) -> bool {
        self.pos <= self.buf@.len()
    }

    /// Where reading `n` bytes leads: past them, or nowhere when they are not all there.
    spec fn advanced(&self, before: Self, n: int) -> bool {
        self.buf@ == before.buf@ && self.pos == before.pos + n && self.wf()
    }

    fn new(buf: &'a [u8]) -> (r: Self)
        ensures
            r.buf@ == buf@,
            r.pos == 0,
            r.wf(),
    {
        Reader { buf, pos: 0 }
    }

    fn take(&mut self, n: usize) -> (r: Result<&'a [u8], DecodeError>)
        requires
            old(self).wf(),
        ensures
            old(self).pos + n <= old(self).buf@.len() ==> final(self).advanced(*old(self), n as int)
                && (r matches Ok(s) && s@ == old(self).buf@.subrange(
                old(self).pos as int,
                old(self).pos + n,
            )),
            old(self).pos + n > old(self).buf@.len() ==> r == Err::<&'a [u8], DecodeError>(
                DecodeError::Truncated,
            ) && *final(self) == *old(self),
    {
        let len: usize = self.buf.len();
        let end = match self.pos.checked_add(n) {
            Some(e) => e,
            None => return Err(DecodeError::Truncated),
        };
        if end > len {
            return Err(DecodeError::Truncated);
        }
        let s = slice_subrange(self.buf, self.pos, end);
        self.pos = end;
        Ok(s)
    }

    fn u8(&mut self) -> (r: Result<u8, DecodeError>)
        requires
            old(self).wf(),
        ensures
            old(self).pos + 1 <= old(self).buf@.len() ==> final(self).advanced(*old(self), 1) && r
                == Ok::<u8, DecodeError>(old(self).buf@[old(self).pos as int]),
            old(self).pos + 1 > old(self).buf@.len() ==> r == Err::<u8, DecodeError>(
                DecodeError::Truncated,
            ),
    {
        let b = self.take(1)?;
        Ok(b[0])
    }

    fn u16(&mut self) -> (r: Result<u16, DecodeError>)
        requires
            old(self).wf(),
        ensures
            old(self).pos + 2 <= old(self).buf@.len() ==> final(self).advanced(*old(self), 2) && r
                == Ok::<u16, DecodeError>(u16_at(old(self).buf@, old(self).pos as int)),
            old(self).pos + 2 > old(self).buf@.len() ==> r == Err::<u16, DecodeError>(
                DecodeError::Truncated,
            ),
    {
        let b = self.take(2)?;
        Ok(read_le16(b[0], b[1]))
    }

    fn i16(&mut self) -> (r: Result<i16, DecodeError>)
        requires
            old(self).wf(),
        ensures
            old(self).pos + 2 <= old(self).buf@.len() ==> final(self).advanced(*old(self), 2) && r
                == Ok::<i16, DecodeError>(
                crate::bytes::from_le_sample(
                    old(self).buf@[old(self).pos as int],
                    old(self).buf@[old(self).pos + 1],
                ),
            ),
            old(self).pos + 2 > old(self).buf@.len() ==> r == Err::<i16, DecodeError>(
                DecodeError::Truncated,
            ),
    {
        let b = self.take(2)?;
        Ok(read_sample(b[0], b[1]))
    }

    fn u32(&mut self) -> (r: Result<u32, DecodeError>)
        requires
            old(self).wf(),
        ensures
            old(self).pos + 4 <= old(self).buf@.len() ==> final(self).advanced(*old(self), 4) && r
                == Ok::<u32, DecodeError>(u32_at(old(self).buf@, old(self).pos as int)),
            old(self).pos + 4 > old(self).buf@.len() ==> r == Err::<u32, DecodeError>(
                DecodeError::Truncated,
            ),
    {
        let b = self.take(4)?;
        Ok(read_le32(b[0], b[1], b[2], b[3]))
    }
}

/// The number whose two bytes stand at `at`, low byte first.
pub open spec fn number16(b: Seq<u8>, at: int) -> int {
    b[at] + 256 * b[at + 1]
}

/// The number whose four bytes stand at `at`, low byte first.
pub open spec fn number32(b: Seq<u8>, at: int) -> int {
    b[at] + 256 * b[at + 1] + 65536 * b[at + 2] + 16777216 * b[at + 3]
}

/// A datagram is laid out as documented: the magic number, the version, the kind and
/// the stream, then the fields of the kind, each in its place.
pub proof fn law_datagram_layout(f: FrameView, k: int)
    requires
        countable(f),
    ensures
        ({
            let b = frame_bytes(f);
            &&& b.len() >= 8
            &&& number16(b, 0) == 0xFD30
            &&& b[2] == 1
            &&& number32(b, 4) == f.stream_id
            &&& f.body matches BodyView::CallStart { source_id, dmr_tg, target_gssi, priority }
                ==> b[3] == 1 && b.len() == 21 && number32(b, 8) == source_id && number32(b, 12)
                == dmr_tg && number32(b, 16) == target_gssi && b[20] == priority
            &&& f.body matches BodyView::Voice { seq, flags, pcm } ==> b[3] == 2 && b.len() == 16
                + 2 * pcm.len() && number32(b, 8) == seq && number16(b, 12) == flags && number16(
                b,
                14,
            ) == pcm.len() && (0 <= k < pcm.len() ==> number16(b, 16 + 2 * k) == (if pcm[k] < 0 {
                pcm[k] + 65536
            } else {
                pcm[k] as int
            }))
            &&& f.body is CallEnd ==> b[3] == 3 && b.len() == 8
            &&& f.body matches BodyView::SrcChange { source_id } ==> b[3] == 4 && b.len() == 12
                && number32(b, 8) == source_id
            &&& f.body is Keepalive ==> b[3] == 5 && b.len() == 8
        }),
{
    let b = frame_bytes(f);
    let h = header_bytes(kind_of(f.body), f.stream_id);
    let p = body_bytes(f.body);
    assert(h.len() == 8);
    assert forall|i: int| 0 <= i < 8 implies #[trigger] b[i] == h[i] by {}
    assert forall|i: int| 0 <= i < p.len() implies b[8 + i] == #[trigger] p[i] by {}
    crate::bytes::law_low_byte_first(FLOWDMR_MAGIC, f.stream_id, 0);
    assert(number32(b, 4) == number32(h, 4));
    assert(h[4] == crate::bytes::le32(f.stream_id)[0]);
    assert(h[5] == crate::bytes::le32(f.stream_id)[1]);
    assert(h[6] == crate::bytes::le32(f.stream_id)[2]);
    assert(h[7] == crate::bytes::le32(f.stream_id)[3]);
    match f.body {
        BodyView::CallStart { source_id, dmr_tg, target_gssi, priority } => {
            crate::bytes::law_low_byte_first(0, source_id, 0);
            crate::bytes::law_low_byte_first(0, dmr_tg, 0);
            crate::bytes::law_low_byte_first(0, target_gssi, 0);
            lemma_four(b, p, 8, 0, source_id);
            lemma_four(b, p, 12, 4, dmr_tg);
            lemma_four(b, p, 16, 8, target_gssi);
            assert(b[20] == p[12]);
        },
        BodyView::Voice { seq, flags, pcm } => {
            crate::bytes::law_low_byte_first(flags, seq, 0);
            crate::bytes::law_low_byte_first((pcm.len() % 65536) as u16, 0, 0);
            lemma_four(b, p, 8, 0, seq);
            assert(b[12] == p[4] && b[13] == p[5]);
            assert(b[14] == p[6] && b[15] == p[7]);
            if 0 <= k < pcm.len() {
                crate::bytes::law_samples_are_written_in_order(pcm, k);
                crate::bytes::law_low_byte_first(0, 0, pcm[k]);
                let s = crate::bytes::sample_bytes(pcm);
                assert(b[8 + (8 + 2 * k)] == p[8 + 2 * k]);
                assert(b[8 + (9 + 2 * k)] == p[9 + 2 * k]);
                assert(p[8 + 2 * k] == s[2 * k]);
                assert(p[9 + 2 * k] == s[2 * k + 1]);
            }
        },
        BodyView::SrcChange { source_id } => {
            crate::bytes::law_low_byte_first(0, source_id, 0);
            lemma_four(b, p, 8, 0, source_id);
        },
        _ => {},
    }
}

/// Four bytes of the payload that write a number are read as it in the datagram.
proof fn lemma_four(b: Seq<u8>, p: Seq<u8>, at: int, from: int, x: u32)
    requires
        at == from + 8,
        0 <= from,
        from + 4 <= p.len(),
        b.len() == 8 + p.len(),
        forall|i: int| 0 <= i < p.len() ==> b[8 + i] == #[trigger] p[i],
        p[from] == crate::bytes::le32(x)[0],
        p[from + 1] == crate::bytes::le32(x)[1],
        p[from + 2] == crate::bytes::le32(x)[2],
        p[from + 3] == crate::bytes::le32(x)[3],
    ensures
        number32(b, at) == x,
{
    crate::bytes::law_low_byte_first(0, x, 0);
    assert(b[8 + from] == p[from]);
    assert(b[8 + (from + 1)] == p[from + 1]);
    assert(b[8 + (from + 2)] == p[from + 2]);
    assert(b[8 + (from + 3)] == p[from + 3]);
}

/// What is wrong with a datagram is told in this order: too short for a header,
/// another magic number, another version, an unknown kind, too short for its kind.
/// Any other is a frame of its kind on its stream.
pub proof fn law_datagram_is_checked_in_order(b: Seq<u8>)
    ensures
        ({
            let r = parse_frame(b);
            let needed = if b[3] == 1 {
                21
            } else if b[3] == 2 {
                if b.len() < 16 {
                    16
                } else {
                    16 + 2 * number16(b, 14)
                }
            } else if b[3] == 4 {
                12
            } else {
                8
            };
            if b.len() < 8 {
                r == Err::<FrameView, DecodeError>(DecodeError::TooShort)
            } else if number16(b, 0) != 0xFD30 {
                r == Err::<FrameView, DecodeError>(DecodeError::BadMagic(number16(b, 0) as u16))
            } else if b[2] != 1 {
                r == Err::<FrameView, DecodeError>(DecodeError::BadVersion(b[2]))
            } else if b[3] < 1 || b[3] > 5 {
                r == Err::<FrameView, DecodeError>(DecodeError::BadKind(b[3]))
            } else if b.len() < needed {
                r == Err::<FrameView, DecodeError>(DecodeError::Truncated)
            } else {
                r matches Ok(f) && f.stream_id == number32(b, 4) && (b[3] == 1) == (f.body
                    is CallStart) && (b[3] == 2) == (f.body is Voice) && (b[3] == 3) == (f.body
                    is CallEnd) && (b[3] == 4) == (f.body is SrcChange) && (b[3] == 5) == (f.body
                    is Keepalive)
            }
        }),
{
}

} // verus!
