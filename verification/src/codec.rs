//! TETRA ACELP voice blocks: two 137-bit coded frames packed into 274 bits.
//!
//! One encoder call turns 240 PCM samples (30 ms) into a 137-bit coded frame;
//! two coded frames are bit-packed into a 35-byte TMD block, the byte layout
//! the MAC layer expects in `TmdCircuitDataReq`.
use vstd::prelude::*;

verus! {

/// PCM samples per codec frame (30 ms at 8 kHz).
pub const PCM_SAMPLES_PER_FRAME: usize = 240;

/// Coded bits per ACELP frame.
pub const CODED_BITS_PER_FRAME: usize = 137;

/// Coded bytes per ACELP frame.
pub const CODED_BYTES_PER_FRAME: usize = (CODED_BITS_PER_FRAME + 7) / 8;

/// Bits in one TMD block (two ACELP frames).
pub const TMD_BITS_PER_BLOCK: usize = CODED_BITS_PER_FRAME * 2;

/// Packed bytes in one TMD block.
pub const TMD_PACKED_BYTES: usize = (TMD_BITS_PER_BLOCK + 7) / 8;

/// Bit `i` of packed bytes, counted from the most significant bit of the first byte.
pub open spec fn bit_at(data: Seq<u8>, i: int) -> u8 {
    (data[i / 8] >> ((7 - i % 8) as u8)) & 1
}

/// The bit that stands at place `i` of a block joined from two coded frames:
/// all of the first frame, then all of the second, then padding zeros.
pub open spec fn joined_bit(a: Seq<u8>, b: Seq<u8>, i: int) -> u8 {
    if i < CODED_BITS_PER_FRAME {
        bit_at(a, i)
    } else if i < TMD_BITS_PER_BLOCK {
        bit_at(b, i - CODED_BITS_PER_FRAME)
    } else {
        0
    }
}

/// Whether `block` is the TMD block that carries the coded frames `a` and `b`.
pub open spec fn is_joined(block: Seq<u8>, a: Seq<u8>, b: Seq<u8>) -> bool {
    &&& block.len() == TMD_PACKED_BYTES
    &&& forall|i: int| 0 <= i < 8 * TMD_PACKED_BYTES ==> #[trigger] bit_at(block, i) == joined_bit(a, b, i)
}

/// The TMD block that carries the coded frames `a` and `b`.
pub open spec fn joined_block(a: Seq<u8>, b: Seq<u8>) -> Seq<u8> {
    choose|block: Seq<u8>| is_joined(block, a, b)
}

proof fn lemma_set_bit(x: u8, k: u8, j: u8)
    by (bit_vector)
    requires
        k < 8,
        j < 8,
    ensures
        ((x | (1u8 << k)) >> j) & 1 == (if j == k {
            1u8
        } else {
            (x >> j) & 1
        }),
{
}

proof fn lemma_bits_fix_byte(x: u8, y: u8)
    by (bit_vector)
    requires
        (x >> 0u8) & 1 == (y >> 0u8) & 1,
        (x >> 1u8) & 1 == (y >> 1u8) & 1,
        (x >> 2u8) & 1 == (y >> 2u8) & 1,
        (x >> 3u8) & 1 == (y >> 3u8) & 1,
        (x >> 4u8) & 1 == (y >> 4u8) & 1,
        (x >> 5u8) & 1 == (y >> 5u8) & 1,
        (x >> 6u8) & 1 == (y >> 6u8) & 1,
        (x >> 7u8) & 1 == (y >> 7u8) & 1,
    ensures
        x == y,
{
}

/// Bytes of equal length with the same bits are the same bytes.
pub proof fn lemma_same_bits_same_bytes(x: Seq<u8>, y: Seq<u8>)
    requires
        x.len() == y.len(),
        forall|i: int| 0 <= i < 8 * x.len() ==> #[trigger] bit_at(x, i) == bit_at(y, i),
    ensures
        x == y,
{
    assert forall|k: int| 0 <= k < x.len() implies x[k] == y[k] by {
        assert(bit_at(x, 8 * k) == bit_at(y, 8 * k));
        assert(bit_at(x, 8 * k + 1) == bit_at(y, 8 * k + 1));
        assert(bit_at(x, 8 * k + 2) == bit_at(y, 8 * k + 2));
        assert(bit_at(x, 8 * k + 3) == bit_at(y, 8 * k + 3));
        assert(bit_at(x, 8 * k + 4) == bit_at(y, 8 * k + 4));
        assert(bit_at(x, 8 * k + 5) == bit_at(y, 8 * k + 5));
        assert(bit_at(x, 8 * k + 6) == bit_at(y, 8 * k + 6));
        assert(bit_at(x, 8 * k + 7) == bit_at(y, 8 * k + 7));
        lemma_bits_fix_byte(x[k], y[k]);
    }
    assert(x =~= y);
}

/// The byte with the given bits, the most significant one first.
spec fn byte_of(b7: u8, b6: u8, b5: u8, b4: u8, b3: u8, b2: u8, b1: u8, b0: u8) -> u8 {
    (b7 << 7) | (b6 << 6) | (b5 << 5) | (b4 << 4) | (b3 << 3) | (b2 << 2) | (b1 << 1) | b0
}

proof fn lemma_byte_has_bits(
    x: u8,
    b7: u8,
    b6: u8,
    b5: u8,
    b4: u8,
    b3: u8,
    b2: u8,
    b1: u8,
    b0: u8,
)
    by (bit_vector)
    requires
        b7 <= 1,
        b6 <= 1,
        b5 <= 1,
        b4 <= 1,
        b3 <= 1,
        b2 <= 1,
        b1 <= 1,
        b0 <= 1,
        x == (b7 << 7) | (b6 << 6) | (b5 << 5) | (b4 << 4) | (b3 << 3) | (b2 << 2) | (b1 << 1) | b0,
    ensures
        (x >> 7u8) & 1 == b7,
        (x >> 6u8) & 1 == b6,
        (x >> 5u8) & 1 == b5,
        (x >> 4u8) & 1 == b4,
        (x >> 3u8) & 1 == b3,
        (x >> 2u8) & 1 == b2,
        (x >> 1u8) & 1 == b1,
        (x >> 0u8) & 1 == b0,
{
}

proof fn lemma_joined_bit(a: Seq<u8>, b: Seq<u8>, i: int)
    ensures
        joined_bit(a, b, i) <= 1,
{
    assert(forall|x: u8, s: u8| #![auto] ((x >> s) & 1) <= 1) by (bit_vector);
}

/// Any two coded frames have a block: the one of 35 bytes that carries their bits,
/// all of the first, then all of the second, then zeros.
pub proof fn law_block_carries_both_frames(a: Seq<u8>, b: Seq<u8>)
    ensures
        is_joined(joined_block(a, b), a, b),
        joined_block(a, b).len() == TMD_PACKED_BYTES,
{
    let block = Seq::new(
        TMD_PACKED_BYTES as nat,
        |k: int|
            byte_of(
                joined_bit(a, b, 8 * k),
                joined_bit(a, b, 8 * k + 1),
                joined_bit(a, b, 8 * k + 2),
                joined_bit(a, b, 8 * k + 3),
                joined_bit(a, b, 8 * k + 4),
                joined_bit(a, b, 8 * k + 5),
                joined_bit(a, b, 8 * k + 6),
                joined_bit(a, b, 8 * k + 7),
            ),
    );
    assert forall|i: int| 0 <= i < 8 * TMD_PACKED_BYTES implies #[trigger] bit_at(block, i)
        == joined_bit(a, b, i) by {
        let k = i / 8;
        lemma_joined_bit(a, b, 8 * k);
        lemma_joined_bit(a, b, 8 * k + 1);
        lemma_joined_bit(a, b, 8 * k + 2);
        lemma_joined_bit(a, b, 8 * k + 3);
        lemma_joined_bit(a, b, 8 * k + 4);
        lemma_joined_bit(a, b, 8 * k + 5);
        lemma_joined_bit(a, b, 8 * k + 6);
        lemma_joined_bit(a, b, 8 * k + 7);
        lemma_byte_has_bits(
            block[k],
            joined_bit(a, b, 8 * k),
            joined_bit(a, b, 8 * k + 1),
            joined_bit(a, b, 8 * k + 2),
            joined_bit(a, b, 8 * k + 3),
            joined_bit(a, b, 8 * k + 4),
            joined_bit(a, b, 8 * k + 5),
            joined_bit(a, b, 8 * k + 6),
            joined_bit(a, b, 8 * k + 7),
        );
        assert(i == 8 * k + i % 8);
    }
    assert(is_joined(block, a, b));
}

/// Two coded frames have exactly one block: any block with their bits is it.
pub proof fn law_block_is_unique(block: Seq<u8>, a: Seq<u8>, b: Seq<u8>)
    requires
        is_joined(block, a, b),
    ensures
        block == joined_block(a, b),
{
    let other = joined_block(a, b);
    assert(is_joined(other, a, b));
    assert forall|i: int| 0 <= i < 8 * block.len() implies #[trigger] bit_at(block, i) == bit_at(
        other,
        i,
    ) by {
        assert(bit_at(other, i) == joined_bit(a, b, i));
    }
    lemma_same_bits_same_bytes(block, other);
}

/// All 274 coded bits survive packing: the first 137 bits of a block are those
/// of the first frame and the next 137 those of the second.
pub proof fn law_block_keeps_all_bits(block: Seq<u8>, a: Seq<u8>, b: Seq<u8>, i: int)
    requires
        is_joined(block, a, b),
        0 <= i < CODED_BITS_PER_FRAME,
    ensures
        bit_at(block, i) == bit_at(a, i),
        bit_at(block, CODED_BITS_PER_FRAME + i) == bit_at(b, i),
{
}

/// Bit `bit_idx` of packed bytes.
pub fn get_packed_bit(data: &[u8], bit_idx: usize) -> (r: u8)
    requires
        bit_idx < 8 * data@.len(),
    ensures
        r == bit_at(data@, bit_idx as int),
{
    (data[bit_idx / 8] >> ((7 - bit_idx % 8) as u8)) & 1
}

/// Sets bit `bit_idx` of packed bytes when the lowest bit of `bit` is set, and
/// leaves the bytes alone when it is not.
pub fn set_packed_bit<const N: usize>(data: &mut [u8; N], bit_idx: usize, bit: u8)
    requires
        bit_idx < 8 * N,
    ensures
        bit & 1 == 0 ==> final(data)@ == old(data)@,
        bit & 1 != 0 ==> forall|j: int|
            0 <= j < 8 * N ==> #[trigger] bit_at(final(data)@, j) == (if j == bit_idx {
                1u8
            } else {
                bit_at(old(data)@, j)
            }),
{
    if bit & 1 != 0 {
        let k: u8 = (7 - bit_idx % 8) as u8;
        let byte = data[bit_idx / 8];
        data[bit_idx / 8] = byte | (1u8 << k);
        proof {
            assert forall|j: int| 0 <= j < 8 * N implies #[trigger] bit_at(data@, j) == (if j
                == bit_idx {
                1u8
            } else {
                bit_at(old(data)@, j)
            }) by {
                lemma_set_bit(byte, k, (7 - j % 8) as u8);
            }
        }
    }
}

/// Packs two 137-bit coded frames into a 274-bit (35-byte) TMD block.
pub fn join_codec_frames_to_tmd_block(
    frame_a: &[u8; CODED_BYTES_PER_FRAME],
    frame_b: &[u8; CODED_BYTES_PER_FRAME],
) -> (out: [u8; TMD_PACKED_BYTES])
    ensures
        is_joined(out@, frame_a@, frame_b@),
        out@ == joined_block(frame_a@, frame_b@),
{
    let mut out: [u8; TMD_PACKED_BYTES] = [0u8; 35];
    let mut bit_idx: usize = 0;
    proof {
        assert(forall|s: u8| #![auto] (0u8 >> s) & 1 == 0) by (bit_vector);
    }
    while bit_idx < TMD_BITS_PER_BLOCK
        invariant
            bit_idx <= TMD_BITS_PER_BLOCK,
            forall|j: int|
                0 <= j < 8 * TMD_PACKED_BYTES ==> #[trigger] bit_at(out@, j) == (if j < bit_idx {
                    joined_bit(frame_a@, frame_b@, j)
                } else {
                    0u8
                }),
        decreases TMD_BITS_PER_BLOCK - bit_idx,
    {
        let bit: u8 = if bit_idx < CODED_BITS_PER_FRAME {
            get_packed_bit(frame_a.as_slice(), bit_idx)
        } else {
            get_packed_bit(frame_b.as_slice(), bit_idx - CODED_BITS_PER_FRAME)
        };
        proof {
            assert(forall|x: u8, s: u8| #![auto] ((x >> s) & 1) == 0 || ((x >> s) & 1) == 1)
                by (bit_vector);
            assert(0u8 & 1 == 0 && 1u8 & 1 == 1) by (bit_vector);
        }
        set_packed_bit(&mut out, bit_idx, bit);
        bit_idx = bit_idx + 1;
    }
    proof {
        law_block_is_unique(out@, frame_a@, frame_b@);
    }
    out
}

/// A voice encoder that needs no codec library: every frame it codes is silent.
pub struct Vocoder {
    inner: Inner,
}

struct Inner;

impl Inner {
    fn new() -> (r: Option<Self>)
        ensures
            r is Some,
    {
        Some(Inner)
    }

    fn encode_frame(&mut self, _pcm: &[i16; PCM_SAMPLES_PER_FRAME]) -> (coded: [u8;
        CODED_BYTES_PER_FRAME])
        ensures
            coded@ == Seq::new(CODED_BYTES_PER_FRAME as nat, |i: int| 0u8),
    {
        let coded: [u8; CODED_BYTES_PER_FRAME] = [0u8; 18];
        assert(coded@ =~= Seq::new(CODED_BYTES_PER_FRAME as nat, |i: int| 0u8));
        coded
    }
}

/// A coded frame of silence.
pub open spec fn silent_frame() -> Seq<u8> {
    Seq::new(CODED_BYTES_PER_FRAME as nat, |i: int| 0u8)
}

impl Vocoder {
    pub fn new() -> (r: Option<Self>)
        ensures
            r is Some,
    {
        match Inner::new() {
            Some(inner) => Some(Vocoder { inner }),
            None => None,
        }
    }

    /// Codes one 30 ms frame.
    pub fn encode_frame(&mut self, pcm: &[i16; PCM_SAMPLES_PER_FRAME]) -> (coded: [u8;
        CODED_BYTES_PER_FRAME])
        ensures
            coded@ == silent_frame(),
    {
        self.inner.encode_frame(pcm)
    }

    /// Codes one 60 ms block: two 240-sample PCM frames into a 35-byte TMD block.
    pub fn encode_block(
        &mut self,
        pcm_a: &[i16; PCM_SAMPLES_PER_FRAME],
        pcm_b: &[i16; PCM_SAMPLES_PER_FRAME],
    ) -> (block: [u8; TMD_PACKED_BYTES])
        ensures
            block@ == joined_block(silent_frame(), silent_frame()),
            block@ == Seq::new(TMD_PACKED_BYTES as nat, |i: int| 0u8),
    {
        let coded_a = self.inner.encode_frame(pcm_a);
        let coded_b = self.inner.encode_frame(pcm_b);
        let block = join_codec_frames_to_tmd_block(&coded_a, &coded_b);
        proof {
            let zero = Seq::new(TMD_PACKED_BYTES as nat, |i: int| 0u8);
            assert(forall|s: u8| #![auto] (0u8 >> s) & 1 == 0) by (bit_vector);
            assert(is_joined(zero, silent_frame(), silent_frame()));
            law_block_is_unique(zero, silent_frame(), silent_frame());
        }
        block
    }
}

/// A block byte by byte: the first 17 bytes are those of the first frame, its last
/// bit is followed by the second frame, and six zeros fill up the last byte.
pub proof fn law_block_byte_by_byte(a: Seq<u8>, b: Seq<u8>, k: int)
    requires
        a.len() == 18,
        b.len() == 18,
        0 <= k < 35,
    ensures
        k < 17 ==> joined_block(a, b)[k] == a[k],
        k == 17 ==> joined_block(a, b)[k] == (a[17] & 0x80) | (b[0] >> 1u8),
        17 < k < 34 ==> joined_block(a, b)[k] == (b[k - 18] << 7u8) | (b[k - 17] >> 1u8),
        k == 34 ==> joined_block(a, b)[k] == (b[16] << 7u8) | ((b[17] >> 1u8) & 0x40),
{
    law_block_carries_both_frames(a, b);
    let block = joined_block(a, b);
    let x = block[k];
    assert forall|j: int| 0 <= j < 8 implies (x >> ((7 - j) as u8)) & 1 == #[trigger] joined_bit(
        a,
        b,
        8 * k + j,
    ) by {
        assert(bit_at(block, 8 * k + j) == joined_bit(a, b, 8 * k + j));
        assert((8 * k + j) / 8 == k && (8 * k + j) % 8 == j);
    }
    assert((x >> 7u8) & 1 == joined_bit(a, b, 8 * k + 0));
    assert((x >> 6u8) & 1 == joined_bit(a, b, 8 * k + 1));
    assert((x >> 5u8) & 1 == joined_bit(a, b, 8 * k + 2));
    assert((x >> 4u8) & 1 == joined_bit(a, b, 8 * k + 3));
    assert((x >> 3u8) & 1 == joined_bit(a, b, 8 * k + 4));
    assert((x >> 2u8) & 1 == joined_bit(a, b, 8 * k + 5));
    assert((x >> 1u8) & 1 == joined_bit(a, b, 8 * k + 6));
    assert((x >> 0u8) & 1 == joined_bit(a, b, 8 * k + 7));
    if k < 17 {
        lemma_bits_fix_byte(x, a[k]);
    } else if k == 17 {
        lemma_seam(x, a[17], b[0]);
    } else if k < 34 {
        lemma_shifted(x, b[k - 18], b[k - 17]);
    } else {
        lemma_tail(x, b[16], b[17]);
    }
}

proof fn lemma_seam(x: u8, p: u8, q: u8)
    by (bit_vector)
    requires
        (x >> 7u8) & 1 == (p >> 7u8) & 1,
        (x >> 6u8) & 1 == (q >> 7u8) & 1,
        (x >> 5u8) & 1 == (q >> 6u8) & 1,
        (x >> 4u8) & 1 == (q >> 5u8) & 1,
        (x >> 3u8) & 1 == (q >> 4u8) & 1,
        (x >> 2u8) & 1 == (q >> 3u8) & 1,
        (x >> 1u8) & 1 == (q >> 2u8) & 1,
        (x >> 0u8) & 1 == (q >> 1u8) & 1,
    ensures
        x == (p & 0x80) | (q >> 1u8),
{
}

proof fn lemma_shifted(x: u8, p: u8, q: u8)
    by (bit_vector)
    requires
        (x >> 7u8) & 1 == (p >> 0u8) & 1,
        (x >> 6u8) & 1 == (q >> 7u8) & 1,
        (x >> 5u8) & 1 == (q >> 6u8) & 1,
        (x >> 4u8) & 1 == (q >> 5u8) & 1,
        (x >> 3u8) & 1 == (q >> 4u8) & 1,
        (x >> 2u8) & 1 == (q >> 3u8) & 1,
        (x >> 1u8) & 1 == (q >> 2u8) & 1,
        (x >> 0u8) & 1 == (q >> 1u8) & 1,
    ensures
        x == (p << 7u8) | (q >> 1u8),
{
}

proof fn lemma_tail(x: u8, p: u8, q: u8)
    by (bit_vector)
    requires
        (x >> 7u8) & 1 == (p >> 0u8) & 1,
        (x >> 6u8) & 1 == (q >> 7u8) & 1,
        (x >> 5u8) & 1 == 0,
        (x >> 4u8) & 1 == 0,
        (x >> 3u8) & 1 == 0,
        (x >> 2u8) & 1 == 0,
        (x >> 1u8) & 1 == 0,
        (x >> 0u8) & 1 == 0,
    ensures
        x == (p << 7u8) | ((q >> 1u8) & 0x40),
{
}

} // verus!
