//! WAV files: the header of a recording, and reading a clip.
use crate::bytes::{
    from_le16, from_le32, le16, le32, push_le16, push_le32, read_le16, read_le32, read_sample,
    sample_bytes, samples_at,
};
use crate::text::{decimal, push_decimal};
use vstd::prelude::*;
use vstd::string::StringExecFns;

verus! {

/// Samples per second of every recording.
pub const SAMPLE_RATE: u32 = 8000;

/// Bytes in the header of a recording.
pub const HEADER_BYTES: usize = 44;

/// Where the length of the whole file, less 8, stands.
pub const RIFF_LEN_AT: u64 = 4;

/// Where the length of the sample data stands.
pub const DATA_LEN_AT: u64 = 40;

pub open spec fn riff_tag() -> Seq<u8> {
    seq![0x52u8, 0x49, 0x46, 0x46]
}

pub open spec fn wave_tag() -> Seq<u8> {
    seq![0x57u8, 0x41, 0x56, 0x45]
}

pub open spec fn fmt_tag() -> Seq<u8> {
    seq![0x66u8, 0x6D, 0x74, 0x20]
}

pub open spec fn data_tag() -> Seq<u8> {
    seq![0x64u8, 0x61, 0x74, 0x61]
}

/// The RIFF length for a given length of the sample data.
pub open spec fn riff_len(data_len: u32) -> u32 {
    ((36 + data_len) % 0x1_0000_0000) as u32
}

/// The length of the sample data for a given number of samples.
pub open spec fn data_len_of(samples: u32) -> u32 {
    ((2 * samples) % 0x1_0000_0000) as u32
}

/// The header of a recording with `data_len` bytes of samples: 16-bit PCM, one
/// channel, [`SAMPLE_RATE`].
#[verifier::opaque]
pub open spec fn header(data_len: u32) -> Seq<u8> {
    riff_tag() + le32(riff_len(data_len)) + wave_tag() + fmt_tag() + le32(16) + le16(1) + le16(1)
        + le32(SAMPLE_RATE) + le32(16000) + le16(2) + le16(16) + data_tag() + le32(data_len)
}

/// A file with the two length fields of its header written over.
pub open spec fn patched(file: Seq<u8>, riff: Seq<u8>, data: Seq<u8>) -> Seq<u8> {
    file.take(4) + riff + file.subrange(8, 40) + data + file.skip(44)
}

/// Finishing a file that was begun with no length gives the file that has the
/// right lengths from the start.
pub proof fn law_patched_file_is_whole(body: Seq<u8>, data_len: u32)
    ensures
        patched(header(0) + body, le32(riff_len(data_len)), le32(data_len)) == header(data_len)
            + body,
{
    reveal(header);
    assert(patched(header(0) + body, le32(riff_len(data_len)), le32(data_len)) =~= header(data_len)
        + body);
}

fn push_tag(out: &mut Vec<u8>, a: u8, b: u8, c: u8, d: u8)
    ensures
        final(out)@ == old(out)@ + seq![a, b, c, d],
{
    out.push(a);
    out.push(b);
    out.push(c);
    out.push(d);
    assert(out@ =~= old(out)@ + seq![a, b, c, d]);
}

proof fn lemma_from_empty(s: Seq<u8>)
    ensures
        Seq::<u8>::empty() + s == s,
{
    assert(Seq::<u8>::empty() + s =~= s);
}

/// The RIFF length field and the data length field of a file of `samples` samples.
pub fn wav_sizes(samples: u32) -> (r: (Vec<u8>, Vec<u8>))
    ensures
        r.0@ == le32(riff_len(data_len_of(samples))),
        r.1@ == le32(data_len_of(samples)),
{
    let data_len: u32 = samples.wrapping_mul(2);
    let whole: u32 = data_len.wrapping_add(36);
    assert(data_len == data_len_of(samples));
    assert(whole == riff_len(data_len));
    let mut riff: Vec<u8> = Vec::new();
    let mut data: Vec<u8> = Vec::new();
    push_le32(&mut riff, whole);
    push_le32(&mut data, data_len);
    proof {
        lemma_from_empty(le32(whole));
        lemma_from_empty(le32(data_len));
    }
    (riff, data)
}

/// The header of a recording.
pub fn wav_header(data_len: u32) -> (r: Vec<u8>)
    ensures
        r@ == header(data_len),
        r@.len() == HEADER_BYTES,
{
    let mut out: Vec<u8> = Vec::new();
    push_tag(&mut out, 0x52, 0x49, 0x46, 0x46);
    push_le32(&mut out, data_len.wrapping_add(36));
    push_tag(&mut out, 0x57, 0x41, 0x56, 0x45);
    push_tag(&mut out, 0x66, 0x6D, 0x74, 0x20);
    push_le32(&mut out, 16);
    push_le16(&mut out, 1);
    push_le16(&mut out, 1);
    push_le32(&mut out, SAMPLE_RATE);
    push_le32(&mut out, SAMPLE_RATE * 2);
    push_le16(&mut out, 2);
    push_le16(&mut out, 16);
    push_tag(&mut out, 0x64, 0x61, 0x74, 0x61);
    push_le32(&mut out, data_len);
    proof {
        reveal(header);
        assert(out@ =~= header(data_len));
    }
    out
}

/// Why a file is not a clip that can be played.
#[derive(Debug, Clone, Copy, PartialEq, Eq, Structural)]
pub enum WavError {
    NotRiffWave,
    /// The samples do not have 16 bits, but this many.
    BitsPerSample(u16),
    NoDataChunk,
}

/// The text of an error.
pub open spec fn wav_error_text(e: WavError) -> Seq<char> {
    match e {
        WavError::NotRiffWave => "not a RIFF/WAVE file"@,
        WavError::BitsPerSample(bits) => "only 16-bit PCM supported (got "@ + decimal(bits as nat)
            + "-bit)"@,
        WavError::NoDataChunk => "no data chunk"@,
    }
}

impl WavError {
    pub fn message(&self) -> (r: String)
        ensures
            r@ == wav_error_text(*self),
    {
        match *self {
            WavError::NotRiffWave => "not a RIFF/WAVE file".to_string(),
            WavError::BitsPerSample(bits) => {
                let mut out = "only 16-bit PCM supported (got ".to_string();
                push_decimal(&mut out, bits as u64);
                out.append("-bit)");
                assert(out@ =~= wav_error_text(*self));
                out
            },
            WavError::NoDataChunk => "no data chunk".to_string(),
        }
    }
}

/// A chunk of a file: its tag, and where its body lies in the file.
pub struct Chunk {
    pub tag: Seq<u8>,
    pub start: int,
    pub end: int,
}

/// The chunks of `b` from `pos` on. A body that runs past the end of the file is
/// cut there; a body of odd length is followed by a byte of padding.
pub open spec fn chunks_at(b: Seq<u8>, pos: int) -> Seq<Chunk>
    decreases
            if pos < b.len() {
                b.len() - pos
            } else {
                0
            },
{
    if pos < 0 || pos + 8 > b.len() {
        seq![]
    } else {
        let size = from_le32(b[pos + 4], b[pos + 5], b[pos + 6], b[pos + 7]);
        let end = if pos + 8 + size < b.len() {
            pos + 8 + size
        } else {
            b.len() as int
        };
        seq![Chunk { tag: b.subrange(pos, pos + 4), start: pos + 8, end }] + chunks_at(
            b,
            pos + 8 + size + size % 2,
        )
    }
}

/// Whether a chunk says how the samples are laid out.
pub open spec fn is_format(c: Chunk) -> bool {
    c.tag == fmt_tag() && c.end - c.start >= 16
}

/// The last chunk that says how the samples are laid out.
pub open spec fn last_format(chunks: Seq<Chunk>) -> Option<Chunk>
    decreases chunks.len(),
{
    if chunks.len() == 0 {
        None
    } else if is_format(chunks.last()) {
        Some(chunks.last())
    } else {
        last_format(chunks.drop_last())
    }
}

/// The last chunk that holds samples.
pub open spec fn last_data(chunks: Seq<Chunk>) -> Option<Chunk>
    decreases chunks.len(),
{
    if chunks.len() == 0 {
        None
    } else if chunks.last().tag == data_tag() {
        Some(chunks.last())
    } else {
        last_data(chunks.drop_last())
    }
}

/// How the samples of a file are laid out.
pub struct Layout {
    pub channels: u16,
    pub rate: u32,
    pub bits: u16,
}

/// The layout that a file states; without one, that of a recording.
pub open spec fn layout_of(b: Seq<u8>, format: Option<Chunk>) -> Layout {
    match format {
        Some(c) => Layout {
            channels: from_le16(b[c.start + 2], b[c.start + 3]),
            rate: from_le32(b[c.start + 4], b[c.start + 5], b[c.start + 6], b[c.start + 7]),
            bits: from_le16(b[c.start + 14], b[c.start + 15]),
        },
        None => Layout { channels: 1, rate: 8000, bits: 16 },
    }
}

/// Half the sum of two samples, rounded towards zero.
pub open spec fn mean(l: i16, r: i16) -> i16 {
    if l + r >= 0 {
        ((l + r) / 2) as i16
    } else {
        -((-(l + r)) / 2) as i16
    }
}

/// The mean of each pair of samples.
pub open spec fn downmixed(s: Seq<i16>) -> Seq<i16> {
    Seq::new(s.len() / 2, |i: int| mean(s[2 * i], s[2 * i + 1]))
}

/// A clip as it is in a file.
pub struct ClipView {
    pub samples: Seq<i16>,
    pub rate: u32,
}

/// What a file holds.
#[verifier::opaque]
pub open spec fn clip_of(b: Seq<u8>) -> Result<ClipView, WavError> {
    let chunks = chunks_at(b, 12);
    let layout = layout_of(b, last_format(chunks));
    if b.len() < 12 || b.subrange(0, 4) != riff_tag() || b.subrange(8, 12) != wave_tag() {
        Err(WavError::NotRiffWave)
    } else if layout.bits != 16 {
        Err(WavError::BitsPerSample(layout.bits))
    } else {
        match last_data(chunks) {
            None => Err(WavError::NoDataChunk),
            Some(c) => {
                let samples = samples_at(b, c.start, ((c.end - c.start) / 2) as nat);
                Ok(
                    ClipView {
                        samples: if layout.channels == 2 {
                            downmixed(samples)
                        } else {
                            samples
                        },
                        rate: layout.rate,
                    },
                )
            },
        }
    }
}

/// A clip of samples.
pub struct Clip {
    pub samples: Vec<i16>,
    /// Samples per second that the file states.
    pub rate: u32,
}

impl View for Clip {
    type V = ClipView;

    open spec fn view(&self) -> ClipView {
        ClipView { samples: self.samples@, rate: self.rate }
    }
}

fn is_tag(b: &[u8], at: usize, a: u8, c: u8, d: u8, e: u8) -> (r: bool)
    requires
        at + 4 <= b@.len(),
    ensures
        r == (b@.subrange(at as int, at + 4) == seq![a, c, d, e]),
{
    let r = b[at] == a && b[at + 1] == c && b[at + 2] == d && b[at + 3] == e;
    proof {
        let sub = b@.subrange(at as int, at + 4);
        if r {
            assert(sub =~= seq![a, c, d, e]);
        } else {
            assert(sub[0] == b@[at as int]);
            assert(sub[1] == b@[at + 1]);
            assert(sub[2] == b@[at + 2]);
            assert(sub[3] == b@[at + 3]);
        }
    }
    r
}

fn read_samples(b: &[u8], start: usize, end: usize) -> (r: Vec<i16>)
    requires
        start <= end <= b@.len(),
    ensures
        r@ == samples_at(b@, start as int, ((end - start) / 2) as nat),
{
    let n: usize = (end - start) / 2;
    let len: usize = b.len();
    let mut out: Vec<i16> = Vec::new();
    let mut i: usize = 0;
    while i < n
        invariant
            i <= n,
            n == (end - start) / 2,
            start <= end <= b@.len(),
            len == b@.len(),
            out@ == samples_at(b@, start as int, i as nat),
        decreases n - i,
    {
        out.push(read_sample(b[start + 2 * i], b[start + 2 * i + 1]));
        i = i + 1;
        assert(out@ =~= samples_at(b@, start as int, i as nat));
    }
    out
}

fn mean_of(l: i16, r: i16) -> (m: i16)
    ensures
        m == mean(l, r),
{
    let sum: i32 = l as i32 + r as i32;
    if sum >= 0 {
        (sum / 2) as i16
    } else {
        (-((-sum) / 2)) as i16
    }
}

fn downmix(s: &Vec<i16>) -> (r: Vec<i16>)
    ensures
        r@ == downmixed(s@),
{
    let n: usize = s.len() / 2;
    let mut out: Vec<i16> = Vec::new();
    let mut i: usize = 0;
    while i < n
        invariant
            i <= n,
            n == s.len() / 2,
            out@.len() == i,
            forall|j: int| 0 <= j < i ==> out@[j] == mean(s@[2 * j], s@[2 * j + 1]),
        decreases n - i,
    {
        out.push(mean_of(s[2 * i], s[2 * i + 1]));
        i = i + 1;
    }
    assert(out@ =~= downmixed(s@));
    out
}

/// One more chunk moves from what is ahead to what has been seen.
proof fn lemma_one_more(seen: Seq<Chunk>, chunk: Chunk, ahead: Seq<Chunk>)
    ensures
        seen + (seq![chunk] + ahead) == seen.push(chunk) + ahead,
        seen.push(chunk).drop_last() == seen,
        seen.push(chunk).last() == chunk,
{
    assert(seen + (seq![chunk] + ahead) =~= seen.push(chunk) + ahead);
    assert(seen.push(chunk).drop_last() =~= seen);
}

/// Reads a clip: 16-bit PCM of one channel; two channels are mixed to one. The
/// samples are taken as they are at any rate.
pub fn parse_wav(b: &[u8]) -> (r: Result<Clip, WavError>)
    ensures
        match r {
            Ok(clip) => clip_of(b@) == Ok::<ClipView, WavError>(clip@),
            Err(e) => clip_of(b@) == Err::<ClipView, WavError>(e),
        },
{
    proof {
        reveal(clip_of);
    }
    let len: usize = b.len();
    if len < 12 || !is_tag(b, 0, 0x52, 0x49, 0x46, 0x46) || !is_tag(b, 8, 0x57, 0x41, 0x56, 0x45) {
        return Err(WavError::NotRiffWave);
    }
    let mut channels: u16 = 1;
    let mut rate: u32 = 8000;
    let mut bits: u16 = 16;
    let mut data: Option<(usize, usize)> = None;
    let mut pos: usize = 12;
    let ghost mut seen: Seq<Chunk> = seq![];
    let ghost all = chunks_at(b@, 12);
    assert(seen + chunks_at(b@, 12) =~= all);
    while len - pos >= 8
        invariant
            len == b@.len(),
            pos <= len,
            all == seen + chunks_at(b@, pos as int),
            layout_of(b@, last_format(seen)) == (Layout { channels, rate, bits }),
            match data {
                Some((start, end)) => last_data(seen) matches Some(c) && c.start == start && c.end
                    == end && start <= end <= len,
                None => last_data(seen) is None,
            },
        decreases len - pos,
    {
        let size: u32 = read_le32(b[pos + 4], b[pos + 5], b[pos + 6], b[pos + 7]);
        let start: usize = pos + 8;
        let end: usize = if (size as u64) < (len - start) as u64 {
            start + size as usize
        } else {
            len
        };
        let ghost chunk = Chunk {
            tag: b@.subrange(pos as int, pos + 4),
            start: start as int,
            end: end as int,
        };
        let ghost next = pos + 8 + size + size % 2;
        proof {
            lemma_one_more(seen, chunk, chunks_at(b@, next));
        }
        if is_tag(b, pos, 0x66, 0x6D, 0x74, 0x20) {
            assert(chunk.tag == fmt_tag());
            assert(fmt_tag()[0] != data_tag()[0]);
            if end - start >= 16 {
                channels = read_le16(b[start + 2], b[start + 3]);
                rate = read_le32(b[start + 4], b[start + 5], b[start + 6], b[start + 7]);
                bits = read_le16(b[start + 14], b[start + 15]);
            }
        } else if is_tag(b, pos, 0x64, 0x61, 0x74, 0x61) {
            assert(chunk.tag == data_tag());
            data = Some((start, end));
        }
        proof {
            seen = seen.push(chunk);
        }
        // A body of odd length is followed by a byte of padding.
        if end < len && size % 2 == 1 {
            pos = end + 1;
        } else {
            pos = end;
        }
        assert(chunks_at(b@, next) == chunks_at(b@, pos as int));
    }
    assert(all =~= seen);
    if bits != 16 {
        return Err(WavError::BitsPerSample(bits));
    }
    let (start, end) = match data {
        Some(d) => d,
        None => return Err(WavError::NoDataChunk),
    };
    let mut samples = read_samples(b, start, end);
    if channels == 2 {
        samples = downmix(&samples);
    }
    Ok(Clip { samples, rate })
}

/// Reading a recording gives back the samples that were recorded.
pub proof fn law_read_of_recording(pcm: Seq<i16>)
    requires
        2 * pcm.len() + 36 <= u32::MAX,
    ensures
        clip_of(header((2 * pcm.len()) as u32) + sample_bytes(pcm)) == Ok::<ClipView, WavError>(
            ClipView { samples: pcm, rate: SAMPLE_RATE },
        ),
{
    reveal(clip_of);
    reveal(header);
    let n = (2 * pcm.len()) as u32;
    let h = header(n);
    let b = h + sample_bytes(pcm);
    let len = b.len() as int;
    assert(h.len() == 44);
    assert(b.subrange(0, 4) =~= riff_tag());
    assert(b.subrange(8, 12) =~= wave_tag());
    assert(b.subrange(12, 16) =~= fmt_tag());
    assert(b.subrange(36, 40) =~= data_tag());
    crate::bytes::lemma_le32_round_trip(16);
    crate::bytes::lemma_le32_round_trip(n);
    crate::bytes::lemma_le32_round_trip(SAMPLE_RATE);
    crate::bytes::lemma_le16_round_trip(1);
    crate::bytes::lemma_le16_round_trip(16);
    let fmt = Chunk { tag: fmt_tag(), start: 20, end: 36 };
    let data = Chunk { tag: data_tag(), start: 44, end: len };
    assert(b.subrange(16, 20) =~= le32(16));
    assert(b.subrange(40, 44) =~= le32(n));
    assert(b.subrange(24, 28) =~= le32(SAMPLE_RATE));
    assert(b.subrange(22, 24) =~= le16(1));
    assert(b.subrange(34, 36) =~= le16(16));
    assert forall|i: int, j: int, k: int|
        0 <= i <= k < j <= len implies b[k] == #[trigger] b.subrange(i, j)[k - i] by {}
    assert(chunks_at(b, 44 + n + n % 2) =~= seq![]);
    assert(chunks_at(b, 36) =~= seq![data]);
    assert(chunks_at(b, 12) =~= seq![fmt, data]);
    let chunks = chunks_at(b, 12);
    assert(chunks.drop_last() =~= seq![fmt]);
    assert(seq![fmt].drop_last() =~= seq![]);
    assert(fmt_tag()[0] != data_tag()[0]);
    assert(last_data(chunks) == Some(data));
    assert(last_format(chunks.drop_last()) == Some(fmt));
    assert(last_format(chunks) == Some(fmt));
    assert(b.subrange(44, (44 + 2 * pcm.len()) as int) =~= sample_bytes(pcm));
    crate::bytes::lemma_samples_round_trip(b, 44, pcm);
}

/// Two channels are mixed to half their sum, towards zero: the sum is never
/// exceeded, and at most one is lost.
pub proof fn law_mean_is_half_the_sum(l: i16, r: i16)
    ensures
        l + r >= 0 ==> 0 <= 2 * mean(l, r) <= l + r <= 2 * mean(l, r) + 1,
        l + r < 0 ==> 2 * mean(l, r) - 1 <= l + r <= 2 * mean(l, r) <= 0,
{
}

/// Whether a chunk is one of format: its tag is `fmt ` and it has 16 bytes or more.
pub open spec fn tells_format(c: Chunk) -> bool {
    c.tag == seq![0x66u8, 0x6D, 0x74, 0x20] && c.end - c.start >= 16
}

/// Whether a chunk is one of samples: its tag is `data`.
pub open spec fn has_samples(c: Chunk) -> bool {
    c.tag == seq![0x64u8, 0x61, 0x74, 0x61]
}

/// Where a file has several chunks of a kind, the last one counts.
pub proof fn law_last_chunk_counts(chunks: Seq<Chunk>, k: int)
    requires
        0 <= k < chunks.len(),
    ensures
        tells_format(chunks[k]) && (forall|j: int|
            k < j < chunks.len() ==> !tells_format(#[trigger] chunks[j])) ==> last_format(chunks)
            == Some(chunks[k]),
        has_samples(chunks[k]) && (forall|j: int|
            k < j < chunks.len() ==> !has_samples(#[trigger] chunks[j])) ==> last_data(chunks)
            == Some(chunks[k]),
    decreases chunks.len(),
{
    let front = chunks.drop_last();
    if k < front.len() {
        law_last_chunk_counts(front, k);
        assert(chunks.last() == chunks[chunks.len() - 1]);
        assert forall|j: int| k < j < front.len() implies front[j] == chunks[j] by {}
        assert(tells_format(chunks[chunks.len() - 1]) == is_format(chunks.last()));
    }
}

/// A file without a chunk of a kind has none.
pub proof fn law_missing_chunk_is_missed(chunks: Seq<Chunk>)
    ensures
        (forall|j: int| 0 <= j < chunks.len() ==> !tells_format(#[trigger] chunks[j]))
            ==> last_format(chunks) is None,
        (forall|j: int| 0 <= j < chunks.len() ==> !has_samples(#[trigger] chunks[j]))
            ==> last_data(chunks) is None,
    decreases chunks.len(),
{
    if chunks.len() > 0 {
        let front = chunks.drop_last();
        law_missing_chunk_is_missed(front);
        assert(chunks.last() == chunks[chunks.len() - 1]);
        assert forall|j: int| 0 <= j < front.len() implies front[j] == chunks[j] by {}
    }
}

/// Chunks follow each other: eight bytes of tag and size, the body, and a byte of
/// padding where the size is odd. A body that runs past the end is cut there.
pub proof fn law_chunks_follow_each_other(b: Seq<u8>, pos: int)
    requires
        0 <= pos,
    ensures
        pos + 8 > b.len() ==> chunks_at(b, pos).len() == 0,
        pos + 8 <= b.len() ==> ({
            let size = b[pos + 4] + 256 * b[pos + 5] + 65536 * b[pos + 6] + 16777216 * b[pos + 7];
            let chunks = chunks_at(b, pos);
            &&& chunks.len() > 0
            &&& chunks[0].tag == b.subrange(pos, pos + 4)
            &&& chunks[0].start == pos + 8
            &&& chunks[0].end == (if pos + 8 + size <= b.len() {
                pos + 8 + size
            } else {
                b.len() as int
            })
            &&& chunks.skip(1) == chunks_at(
                b,
                if size % 2 == 0 {
                    pos + 8 + size
                } else {
                    pos + 9 + size
                },
            )
        }),
{
    if pos + 8 <= b.len() {
        let size = from_le32(b[pos + 4], b[pos + 5], b[pos + 6], b[pos + 7]);
        assert(chunks_at(b, pos).skip(1) =~= chunks_at(b, pos + 8 + size + size % 2));
    }
}

/// A clip is what its last chunk of samples holds, under its last chunk of format:
/// 16-bit samples, low byte first, of one channel or of two that are mixed. Without
/// a format it is one channel at 8000 per second.
pub proof fn law_clip_is_what_the_chunks_say(b: Seq<u8>)
    requires
        b.len() >= 12,
        b.subrange(0, 4) == seq![0x52u8, 0x49, 0x46, 0x46],
        b.subrange(8, 12) == seq![0x57u8, 0x41, 0x56, 0x45],
    ensures
        ({
            let chunks = chunks_at(b, 12);
            let format = last_format(chunks);
            let channels = match format {
                Some(c) => b[c.start + 2] + 256 * b[c.start + 3],
                None => 1,
            };
            let rate = match format {
                Some(c) => b[c.start + 4] + 256 * b[c.start + 5] + 65536 * b[c.start + 6] + 16777216
                    * b[c.start + 7],
                None => 8000,
            };
            let bits = match format {
                Some(c) => b[c.start + 14] + 256 * b[c.start + 15],
                None => 16,
            };
            let clip = clip_of(b);
            if bits != 16 {
                clip == Err::<ClipView, WavError>(WavError::BitsPerSample(bits as u16))
            } else {
                match last_data(chunks) {
                    None => clip == Err::<ClipView, WavError>(WavError::NoDataChunk),
                    Some(d) => {
                        let all = samples_at(b, d.start, ((d.end - d.start) / 2) as nat);
                        &&& clip is Ok
                        &&& clip->Ok_0.rate == rate
                        &&& channels != 2 ==> clip->Ok_0.samples == all
                        &&& channels == 2 ==> clip->Ok_0.samples.len() == all.len() / 2
                        &&& channels == 2 ==> forall|i: int|
                            0 <= i < all.len() / 2 ==> #[trigger] clip->Ok_0.samples[i] == mean(
                                all[2 * i],
                                all[2 * i + 1],
                            )
                    },
                }
            }
        }),
{
    reveal(clip_of);
}

/// A file that is no RIFF file of the kind WAVE is refused as that, before anything
/// else is looked at.
pub proof fn law_other_files_are_refused(b: Seq<u8>)
    requires
        b.len() < 12 || b.subrange(0, 4) != seq![0x52u8, 0x49, 0x46, 0x46] || b.subrange(8, 12)
            != seq![0x57u8, 0x41, 0x56, 0x45],
    ensures
        clip_of(b) == Err::<ClipView, WavError>(WavError::NotRiffWave),
{
    reveal(clip_of);
}

} // verus!
