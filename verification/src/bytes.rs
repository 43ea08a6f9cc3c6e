//! Little-endian integers as byte sequences.
use vstd::prelude::*;

verus! {

/// The two bytes of `x`, low byte first.
pub open spec fn le16(x: u16) -> Seq<u8> {
    seq![(x % 256) as u8, (x / 256) as u8]
}

/// The number whose low byte is `a` and whose high byte is `b`.
pub open spec fn from_le16(a: u8, b: u8) -> u16 {
    (a + 256 * b) as u16
}

/// The four bytes of `x`, low byte first.
pub open spec fn le32(x: u32) -> Seq<u8> {
    seq![
        (x % 256) as u8,
        (x / 256 % 256) as u8,
        (x / 65536 % 256) as u8,
        (x / 16777216) as u8,
    ]
}

/// The number whose bytes are `a`, `b`, `c` and `d`, low byte first.
pub open spec fn from_le32(a: u8, b: u8, c: u8, d: u8) -> u32 {
    (a + 256 * b + 65536 * c + 16777216 * d) as u32
}

/// The two bytes of a signed sample in two's complement, low byte first.
pub open spec fn le_sample(s: i16) -> Seq<u8> {
    le16(s as u16)
}

/// The signed sample with low byte `a` and high byte `b`.
pub open spec fn from_le_sample(a: u8, b: u8) -> i16 {
    from_le16(a, b) as i16
}

/// A run of samples as bytes, each sample low byte first.
pub open spec fn sample_bytes(pcm: Seq<i16>) -> Seq<u8> {
    Seq::new(2 * pcm.len(), |i: int| le_sample(pcm[i / 2])[i % 2])
}

/// The `n` samples that start at byte `from` of `b`.
pub open spec fn samples_at(b: Seq<u8>, from: int, n: nat) -> Seq<i16> {
    Seq::new(n, |i: int| from_le_sample(b[from + 2 * i], b[from + 2 * i + 1]))
}

/// Reading a 16-bit number gives back the one whose bytes were written.
pub proof fn lemma_le16_round_trip(x: u16)
    ensures
        from_le16(le16(x)[0], le16(x)[1]) == x,
{
}

/// Writing a 16-bit number gives back the bytes it was read from.
pub proof fn lemma_from_le16_round_trip(a: u8, b: u8)
    ensures
        le16(from_le16(a, b)) == seq![a, b],
{
    assert(le16(from_le16(a, b)) =~= seq![a, b]);
}

/// Reading a 32-bit number gives back the one whose bytes were written.
pub proof fn lemma_le32_round_trip(x: u32)
    ensures
        from_le32(le32(x)[0], le32(x)[1], le32(x)[2], le32(x)[3]) == x,
{
}

/// Writing a 32-bit number gives back the bytes it was read from.
pub proof fn lemma_from_le32_round_trip(a: u8, b: u8, c: u8, d: u8)
    ensures
        le32(from_le32(a, b, c, d)) == seq![a, b, c, d],
{
    let x = from_le32(a, b, c, d) as int;
    assert(x % 256 == a);
    assert(x / 256 == b + 256 * c + 65536 * d);
    assert((b + 256 * c + 65536 * d) % 256 == b as int);
    assert(x / 65536 == c + 256 * d);
    assert((c + 256 * d) % 256 == c as int);
    assert(x / 16777216 == d);
    assert(le32(from_le32(a, b, c, d)) =~= seq![a, b, c, d]);
}

/// Reading a sample gives back the one whose bytes were written.
pub proof fn lemma_sample_round_trip(s: i16)
    ensures
        from_le_sample(le_sample(s)[0], le_sample(s)[1]) == s,
{
    let u = s as u16;
    lemma_le16_round_trip(u);
    assert((s as u16) as i16 == s) by (bit_vector);
}

/// Writing a sample gives back the bytes it was read from.
pub proof fn lemma_from_sample_round_trip(a: u8, b: u8)
    ensures
        le_sample(from_le_sample(a, b)) == seq![a, b],
{
    let u = from_le16(a, b);
    lemma_from_le16_round_trip(a, b);
    assert((u as i16) as u16 == u) by (bit_vector);
}

/// Samples read back from where they were written are the samples written.
pub proof fn lemma_samples_round_trip(b: Seq<u8>, from: int, pcm: Seq<i16>)
    requires
        0 <= from,
        from + 2 * pcm.len() <= b.len(),
        b.subrange(from, from + 2 * pcm.len()) == sample_bytes(pcm),
    ensures
        samples_at(b, from, pcm.len()) == pcm,
{
    let got = samples_at(b, from, pcm.len());
    assert forall|i: int| 0 <= i < pcm.len() implies got[i] == pcm[i] by {
        let w = b.subrange(from, from + 2 * pcm.len());
        assert(w[2 * i] == b[from + 2 * i]);
        assert(w[2 * i + 1] == b[from + 2 * i + 1]);
        assert((2 * i) / 2 == i && (2 * i) % 2 == 0);
        assert((2 * i + 1) / 2 == i && (2 * i + 1) % 2 == 1);
        lemma_sample_round_trip(pcm[i]);
    }
    assert(got =~= pcm);
}

/// Bytes written for samples that were read are the bytes they were read from.
pub proof fn lemma_sample_bytes_round_trip(b: Seq<u8>, from: int, n: nat)
    requires
        0 <= from,
        from + 2 * n <= b.len(),
    ensures
        sample_bytes(samples_at(b, from, n)) == b.subrange(from, from + 2 * n),
{
    let w = b.subrange(from, from + 2 * n);
    let pcm = samples_at(b, from, n);
    assert forall|i: int| 0 <= i < 2 * n implies sample_bytes(pcm)[i] == w[i] by {
        let k = i / 2;
        lemma_from_sample_round_trip(b[from + 2 * k], b[from + 2 * k + 1]);
        assert(i == 2 * k || i == 2 * k + 1);
    }
    assert(sample_bytes(pcm) =~= w);
}

/// The bytes of two runs of samples are the bytes of the one run.
pub proof fn lemma_sample_bytes_concat(a: Seq<i16>, b: Seq<i16>)
    ensures
        sample_bytes(a + b) == sample_bytes(a) + sample_bytes(b),
{
    let x = sample_bytes(a + b);
    let y = sample_bytes(a) + sample_bytes(b);
    assert forall|j: int| 0 <= j < x.len() implies x[j] == y[j] by {
        if j >= 2 * a.len() {
            assert((j - 2 * a.len()) / 2 == j / 2 - a.len());
            assert((j - 2 * a.len()) % 2 == j % 2);
        }
    }
    assert(x =~= y);
}

/// Appends the two bytes of `x`.
pub fn push_le16(out: &mut Vec<u8>, x: u16)
    ensures
        final(out)@ == old(out)@ + le16(x),
{
    out.push((x % 256) as u8);
    out.push((x / 256) as u8);
    assert(out@ =~= old(out)@ + le16(x));
}

/// Appends the four bytes of `x`.
pub fn push_le32(out: &mut Vec<u8>, x: u32)
    ensures
        final(out)@ == old(out)@ + le32(x),
{
    out.push((x % 256) as u8);
    out.push((x / 256 % 256) as u8);
    out.push((x / 65536 % 256) as u8);
    out.push((x / 16777216) as u8);
    assert(out@ =~= old(out)@ + le32(x));
}

/// Appends the two bytes of every sample.
pub fn push_samples(out: &mut Vec<u8>, pcm: &[i16])
    ensures
        final(out)@ == old(out)@ + sample_bytes(pcm@),
{
    let mut i: usize = 0;
    while i < pcm.len()
        invariant
            i <= pcm@.len(),
            out@ == old(out)@ + sample_bytes(pcm@.take(i as int)),
        decreases pcm@.len() - i,
    {
        let s = pcm[i];
        push_le16(out, s as u16);
        proof {
            let a = sample_bytes(pcm@.take(i as int));
            let b = sample_bytes(pcm@.take(i + 1));
            assert forall|j: int| 0 <= j < b.len() implies b[j] == (a + le_sample(s))[j] by {
                if j < a.len() {
                    assert(0 <= j / 2 < i);
                } else {
                    assert(j == 2 * i || j == 2 * i + 1);
                }
            }
            assert(b =~= a + le_sample(s));
            assert(old(out)@ + a + le_sample(s) =~= old(out)@ + (a + le_sample(s)));
        }
        i = i + 1;
    }
    assert(pcm@.take(i as int) =~= pcm@);
}

/// The number whose low byte is `a` and whose high byte is `b`.
pub fn read_le16(a: u8, b: u8) -> (x: u16)
    ensures
        x == from_le16(a, b),
{
    a as u16 + 256 * (b as u16)
}

/// The number whose bytes are `a`, `b`, `c` and `d`, low byte first.
pub fn read_le32(a: u8, b: u8, c: u8, d: u8) -> (x: u32)
    ensures
        x == from_le32(a, b, c, d),
{
    a as u32 + 256 * (b as u32) + 65536 * (c as u32) + 16777216 * (d as u32)
}

/// The signed sample with low byte `a` and high byte `b`.
pub fn read_sample(a: u8, b: u8) -> (s: i16)
    ensures
        s == from_le_sample(a, b),
{
    read_le16(a, b) as i16
}

/// The low byte comes first, and the bytes add up to the number.
pub proof fn law_low_byte_first(x: u16, y: u32, s: i16)
    ensures
        le16(x).len() == 2,
        le16(x)[0] + 256 * le16(x)[1] == x,
        le32(y).len() == 4,
        le32(y)[0] + 256 * le32(y)[1] + 65536 * le32(y)[2] + 16777216 * le32(y)[3] == y,
        s >= 0 ==> le_sample(s)[0] + 256 * le_sample(s)[1] == s,
        s < 0 ==> le_sample(s)[0] + 256 * le_sample(s)[1] == s + 65536,
{
    lemma_le32_round_trip(y);
    if s < 0 {
        assert(s as u16 == 65535u16 - ((-1i16 - s) as u16)) by (bit_vector)
            requires
                s < 0,
        ;
    }
}

/// Samples are written one behind the other, two bytes each.
pub proof fn law_samples_are_written_in_order(pcm: Seq<i16>, i: int)
    requires
        0 <= i < pcm.len(),
    ensures
        sample_bytes(pcm).len() == 2 * pcm.len(),
        sample_bytes(pcm)[2 * i] == le_sample(pcm[i])[0],
        sample_bytes(pcm)[2 * i + 1] == le_sample(pcm[i])[1],
{
    assert((2 * i) / 2 == i && (2 * i) % 2 == 0);
    assert((2 * i + 1) / 2 == i && (2 * i + 1) % 2 == 1);
}

} // verus!
