//! PCM ingest: the decoder's 8 kHz audio, raw little-endian samples in datagrams
//! of any length, cut into frames of 240 samples.
//!
//! The decoder sends two channels even for mono speech; of those the left one is
//! taken. A datagram may end within a pair of samples: the rest is kept for the
//! next one, so that the channels do not get swapped.
use crate::bytes::{from_le_sample, read_sample};
use crate::ipc::PCM_SAMPLES_PER_FRAME;
use crate::session::{CallManager, FrameSink};
use crate::status::Status;
use vstd::prelude::*;

verus! {

/// A peak from which on a frame counts as clipped.
pub const CLIP_PEAK: i16 = 32760;

/// A gain, as the sample that each sample becomes.
pub struct GainTable {
    table: Vec<i16>,
}

impl View for GainTable {
    type V = Seq<i16>;

    closed spec fn view(&self) -> Seq<i16> {
        self.table@
    }
}

impl GainTable {
    /// A table has one entry for each sample, at the sample taken as an unsigned
    /// number.
    #[verifier::type_invariant]
    spec fn complete(self) -> bool {
        self.table@.len() == 65536
    }

    /// The gain given by its 65536 entries; none if their number is another.
    pub fn new(table: Vec<i16>) -> (r: Option<Self>)
        ensures
            match r {
                Some(g) => table@.len() == 65536 && g@ == table@,
                None => table@.len() != 65536,
            },
    {
        if table.len() != 65536 {
            return None;
        }
        Some(GainTable { table })
    }

    /// The sample that `s` becomes.
    pub fn apply(&self, s: i16) -> (r: i16)
        ensures
            r == self@[(s as u16) as int],
    {
        proof {
            use_type_invariant(self);
        }
        self.table[s as u16 as usize]
    }
}

/// The sample that `s` becomes under a gain, if there is one.
pub open spec fn amplified(gain: Option<Seq<i16>>, s: i16) -> i16 {
    match gain {
        Some(table) => table[(s as u16) as int],
        None => s,
    }
}

/// The entries of a gain, if there is one.
pub open spec fn gain_of(gain: Option<GainTable>) -> Option<Seq<i16>> {
    match gain {
        Some(g) => Some(g@),
        None => None,
    }
}

/// Bytes from one sample that is taken to the next.
pub open spec fn unit(stereo: bool) -> int {
    if stereo {
        4
    } else {
        2
    }
}

/// Number of samples taken from `len` bytes: one for each place from which two
/// bytes can be read.
pub open spec fn taken(len: nat, stereo: bool) -> nat {
    if stereo {
        (len + 2) / 4
    } else {
        len / 2
    }
}

/// Number of bytes, of `len`, that make up whole units.
pub open spec fn whole(len: nat, stereo: bool) -> int {
    if stereo {
        len as int / 4 * 4
    } else {
        len as int / 2 * 2
    }
}

/// The samples taken from `b`.
#[verifier::opaque]
pub open spec fn extracted(b: Seq<u8>, stereo: bool, gain: Option<Seq<i16>>) -> Seq<i16> {
    Seq::new(
        taken(b.len(), stereo),
        |i: int|
            amplified(gain, from_le_sample(b[unit(stereo) * i], b[unit(stereo) * i + 1])),
    )
}

/// Appends the samples of interleaved little-endian audio: the left one of each
/// pair when `stereo`, every one otherwise, under the gain if there is one.
pub fn extract_samples(
    bytes: &[u8],
    stereo: bool,
    gain: &Option<GainTable>,
    out: &mut Vec<i16>,
)
    ensures
        final(out)@ == old(out)@ + extracted(bytes@, stereo, gain_of(*gain)),
{
    let step: usize = if stereo {
        4
    } else {
        2
    };
    proof {
        reveal(extracted);
    }
    let len: usize = bytes.len();
    let ghost all = extracted(bytes@, stereo, gain_of(*gain));
    let ghost mut n: int = 0;
    let mut i: usize = 0;
    assert(out@ =~= old(out)@ + all.take(0));
    while i < len && len - i >= 2
        invariant
            len == bytes@.len(),
            step == unit(stereo),
            i <= len,
            all == extracted(bytes@, stereo, gain_of(*gain)),
            0 <= n <= all.len(),
            i == step * n || (i == len && n == all.len()),
            out@ == old(out)@ + all.take(n),
        decreases len - i,
    {
        let mut s: i16 = read_sample(bytes[i], bytes[i + 1]);
        if let Some(g) = gain {
            s = g.apply(s);
        }
        out.push(s);
        proof {
            reveal(extracted);
            assert(n < all.len());
            assert(s == all[n]);
            assert(out@ =~= old(out)@ + all.take(n + 1));
            n = n + 1;
        }
        if len - i > step {
            i = i + step;
        } else {
            i = len;
        }
    }
    assert(all.take(n) =~= all);
}

/// Cuts the audio stream into frames.
pub struct Reframer {
    stereo: bool,
    gain: Option<GainTable>,
    bytes: Vec<u8>,
    samples: Vec<i16>,
}

/// Mathematical value of a [`Reframer`].
pub struct ReframerView {
    pub stereo: bool,
    pub gain: Option<Seq<i16>>,
    /// Bytes kept for the next datagram.
    pub bytes: Seq<u8>,
    /// Samples that wait for a frame to fill up.
    pub samples: Seq<i16>,
}

impl View for Reframer {
    type V = ReframerView;

    closed spec fn view(&self) -> ReframerView {
        ReframerView {
            stereo: self.stereo,
            gain: gain_of(self.gain),
            bytes: self.bytes@,
            samples: self.samples@,
        }
    }
}

impl ReframerView {
    /// Fewer bytes are kept than a sample takes.
    pub open spec fn valid(self) -> bool {
        self.bytes.len() < unit(self.stereo)
    }

    /// The frame that can be taken out.
    pub open spec fn frame(self) -> Option<Seq<i16>> {
        if self.samples.len() >= PCM_SAMPLES_PER_FRAME {
            Some(self.samples.take(PCM_SAMPLES_PER_FRAME as int))
        } else {
            None
        }
    }

    /// What is left once a frame has been taken out.
    pub open spec fn after_frame(self) -> ReframerView {
        if self.samples.len() >= PCM_SAMPLES_PER_FRAME {
            ReframerView { samples: self.samples.skip(PCM_SAMPLES_PER_FRAME as int), ..self }
        } else {
            self
        }
    }

    /// A datagram comes in.
    pub open spec fn fed(self, datagram: Seq<u8>) -> ReframerView {
        let all = self.bytes + datagram;
        let usable = whole(all.len(), self.stereo);
        ReframerView {
            bytes: all.skip(usable),
            samples: self.samples + extracted(all.take(usable), self.stereo, self.gain),
            ..self
        }
    }
}

impl Reframer {
    pub fn new(stereo: bool, gain: Option<GainTable>) -> (r: Self)
        ensures
            r@ == (ReframerView { stereo, gain: gain_of(gain), bytes: seq![], samples: seq![] }),
            r@.valid(),
    {
        let r = Reframer { stereo, gain, bytes: Vec::new(), samples: Vec::new() };
        assert(r@.bytes =~= seq![]);
        assert(r@.samples =~= seq![]);
        r
    }

    /// Takes a datagram in.
    pub fn feed(&mut self, datagram: &[u8])
        requires
            old(self)@.valid(),
        ensures
            final(self)@ == old(self)@.fed(datagram@),
            final(self)@.valid(),
    {
        let unit: usize = if self.stereo {
            4
        } else {
            2
        };
        self.bytes.extend_from_slice(datagram);
        assert(self.bytes@ =~= old(self)@.bytes + datagram@);
        let len: usize = self.bytes.len();
        let usable: usize = len - len % unit;
        let ghost all = self.bytes@;
        assert(usable == whole(len as nat, self.stereo));
        let rest = self.bytes.split_off(usable);
        extract_samples(self.bytes.as_slice(), self.stereo, &self.gain, &mut self.samples);
        assert(self.bytes@ =~= all.take(usable as int));
        assert(rest@ =~= all.skip(usable as int));
        self.bytes = rest;
    }

    /// Takes a frame out, once enough samples are there.
    pub fn next_frame(&mut self) -> (r: Option<Vec<i16>>)
        ensures
            final(self)@ == old(self)@.after_frame(),
            match r {
                Some(f) => old(self)@.frame() == Some(f@),
                None => old(self)@.frame() is None,
            },
            final(self)@.bytes == old(self)@.bytes,
            final(self)@.stereo == old(self)@.stereo,
            final(self)@.gain == old(self)@.gain,
            match r {
                Some(f) => old(self)@.samples.len() >= PCM_SAMPLES_PER_FRAME && f@
                    == old(self)@.samples.take(PCM_SAMPLES_PER_FRAME as int)
                    && final(self)@.samples == old(self)@.samples.skip(
                    PCM_SAMPLES_PER_FRAME as int,
                ),
                None => old(self)@.samples.len() < PCM_SAMPLES_PER_FRAME && final(self)@
                    == old(self)@,
            },
    {
        if self.samples.len() < PCM_SAMPLES_PER_FRAME {
            return None;
        }
        let rest = self.samples.split_off(PCM_SAMPLES_PER_FRAME);
        let mut frame: Vec<i16> = Vec::new();
        frame.extend_from_slice(self.samples.as_slice());
        assert(frame@ =~= old(self)@.samples.take(PCM_SAMPLES_PER_FRAME as int));
        self.samples = rest;
        assert(self.samples@ =~= old(self)@.samples.skip(PCM_SAMPLES_PER_FRAME as int));
        Some(frame)
    }
}

proof fn lemma_extracted_concat(
    a: Seq<u8>,
    b: Seq<u8>,
    stereo: bool,
    gain: Option<Seq<i16>>,
)
    requires
        a.len() as int == whole(a.len(), stereo),
    ensures
        extracted(a + b, stereo, gain) == extracted(a, stereo, gain) + extracted(b, stereo, gain),
{
    reveal(extracted);
    let x = extracted(a + b, stereo, gain);
    let y = extracted(a, stereo, gain) + extracted(b, stereo, gain);
    let n = taken(a.len(), stereo) as int;
    assert(a.len() == unit(stereo) * n);
    assert forall|i: int| 0 <= i < x.len() implies x[i] == y[i] by {
        if i >= n {
            assert(unit(stereo) * i - a.len() == unit(stereo) * (i - n));
        } else {
            assert(unit(stereo) * i + 1 < a.len());
        }
    }
    assert(x =~= y);
}

/// What is whole in `first + b` is what is whole in `first`, then what is whole in
/// the rest and `b`.
proof fn lemma_cut(first: Seq<u8>, b: Seq<u8>, stereo: bool)
    ensures
        ({
            let m = whole(first.len(), stereo);
            let second = first.skip(m) + b;
            let k = whole(second.len(), stereo);
            let w = whole((first + b).len(), stereo);
            &&& first.take(m).len() as int == whole(first.take(m).len(), stereo)
            &&& (first + b).take(w) == first.take(m) + second.take(k)
            &&& (first + b).skip(w) == second.skip(k)
        }),
{
    let m = whole(first.len(), stereo);
    let second = first.skip(m) + b;
    let k = whole(second.len(), stereo);
    let w = whole((first + b).len(), stereo);
    assert((first + b).len() == m + second.len());
    assert(w == m + k);
    assert((first + b).take(w) =~= first.take(m) + second.take(k));
    assert((first + b).skip(w) =~= second.skip(k));
}

/// Where the stream is cut into datagrams does not matter: two datagrams leave
/// the same samples and the same rest as the two in one.
pub proof fn law_datagram_cuts_do_not_matter(r: ReframerView, a: Seq<u8>, b: Seq<u8>)
    requires
        r.valid(),
    ensures
        r.fed(a).fed(b) == r.fed(a + b),
{
    let first = r.bytes + a;
    let m = whole(first.len(), r.stereo);
    let second = first.skip(m) + b;
    let k = whole(second.len(), r.stereo);
    let both = r.bytes + (a + b);
    let w = whole(both.len(), r.stereo);
    assert(both =~= first + b);
    lemma_cut(first, b, r.stereo);
    lemma_extracted_concat(first.take(m), second.take(k), r.stereo, r.gain);
    let x = extracted(first.take(m), r.stereo, r.gain);
    let y = extracted(second.take(k), r.stereo, r.gain);
    let once = r.fed(a + b);
    let twice = r.fed(a).fed(b);
    assert(once.samples == r.samples + (x + y));
    assert(twice.samples == r.samples + x + y);
    assert(r.samples + x + y =~= r.samples + (x + y));
    assert(once.bytes == both.skip(w));
    assert(twice.bytes == second.skip(k));
}

/// With two channels, the left one is taken: of `n` pairs, the first sample of
/// each, whatever the right ones are.
pub proof fn law_left_channel_is_taken(left: Seq<i16>, right: Seq<i16>, b: Seq<u8>)
    requires
        left.len() == right.len(),
        b.len() == 4 * left.len(),
        forall|i: int|
            0 <= i < left.len() ==> b.subrange(4 * i, 4 * i + 4) == crate::bytes::le_sample(
                #[trigger] left[i],
            ) + crate::bytes::le_sample(right[i]),
    ensures
        extracted(b, true, None) == left,
{
    reveal(extracted);
    let got = extracted(b, true, None);
    assert forall|i: int| 0 <= i < left.len() implies got[i] == left[i] by {
        let w = b.subrange(4 * i, 4 * i + 4);
        assert(w[0] == b[4 * i] && w[1] == b[4 * i + 1]);
        assert(w == crate::bytes::le_sample(left[i]) + crate::bytes::le_sample(right[i]));
        crate::bytes::lemma_sample_round_trip(left[i]);
    }
    assert(got =~= left);
}

/// How far a sample is from 0.
pub open spec fn magnitude(s: i16) -> int {
    if s < 0 {
        -s
    } else {
        s as int
    }
}

/// The largest magnitude of the samples; 0 if there is none.
pub open spec fn loudest(pcm: Seq<i16>) -> int
    decreases pcm.len(),
{
    if pcm.len() == 0 {
        0
    } else {
        let before = loudest(pcm.drop_last());
        if magnitude(pcm.last()) > before {
            magnitude(pcm.last())
        } else {
            before
        }
    }
}

/// The peak of a frame: its largest magnitude, as far as a sample can hold it.
pub open spec fn peak(pcm: Seq<i16>) -> i16 {
    if loudest(pcm) > 32767 {
        32767
    } else {
        loudest(pcm) as i16
    }
}

/// No sample is louder than the loudest, and one is as loud.
pub proof fn law_loudest_is_the_maximum(pcm: Seq<i16>)
    ensures
        forall|i: int| 0 <= i < pcm.len() ==> magnitude(#[trigger] pcm[i]) <= loudest(pcm),
        pcm.len() > 0 ==> exists|i: int|
            0 <= i < pcm.len() && magnitude(#[trigger] pcm[i]) == loudest(pcm),
        0 <= loudest(pcm) <= 32768,
    decreases pcm.len(),
{
    if pcm.len() > 0 {
        let front = pcm.drop_last();
        let last = pcm.len() - 1;
        law_loudest_is_the_maximum(front);
        assert forall|i: int| 0 <= i < pcm.len() implies magnitude(#[trigger] pcm[i]) <= loudest(
            pcm,
        ) by {
            if i < last {
                assert(front[i] == pcm[i]);
            }
        }
        if magnitude(pcm.last()) > loudest(front) {
            assert(magnitude(pcm[last]) == loudest(pcm));
        } else if front.len() > 0 {
            let i = choose|i: int|
                0 <= i < front.len() && magnitude(#[trigger] front[i]) == loudest(front);
            assert(magnitude(pcm[i]) == loudest(pcm));
        } else {
            assert(magnitude(pcm[last]) == loudest(pcm));
        }
    }
}

/// The peak of a frame.
pub fn frame_peak(pcm: &[i16]) -> (r: i16)
    ensures
        r == peak(pcm@),
        r >= 0,
{
    let mut max: u16 = 0;
    let mut i: usize = 0;
    assert(pcm@.take(0) =~= seq![]);
    while i < pcm.len()
        invariant
            i <= pcm@.len(),
            max == loudest(pcm@.take(i as int)),
            max <= 32768,
        decreases pcm@.len() - i,
    {
        let s: i32 = pcm[i] as i32;
        let m: u16 = if s < 0 {
            (-s) as u16
        } else {
            s as u16
        };
        proof {
            assert(pcm@.take(i + 1).drop_last() =~= pcm@.take(i as int));
            assert(pcm@.take(i + 1).last() == pcm@[i as int]);
        }
        if m > max {
            max = m;
        }
        i = i + 1;
    }
    assert(pcm@.take(i as int) =~= pcm@);
    if max > 32767 {
        32767
    } else {
        max as i16
    }
}

/// Applies one PCM frame: to the calls, and to the level meter.
pub fn on_frame<S: FrameSink>(
    frame: Vec<i16>,
    target_gssi: u32,
    now_ms: u64,
    manager: &mut CallManager,
    status: &mut Status,
    sink: &mut S,
)
    ensures
        final(manager)@ == old(manager)@.after_pcm(frame@, target_gssi, now_ms).manager,
        final(sink).sent() == old(sink).sent() + old(manager)@.after_pcm(
            frame@,
            target_gssi,
            now_ms,
        ).sent,
        final(status)@ == old(status)@.after_pcm(peak(frame@)),
{
    let loud = frame_peak(frame.as_slice());
    manager.on_pcm(frame, target_gssi, now_ms, sink);
    status.note_pcm(loud);
}

/// A gain reaches every sample that is taken, whatever its sign: each becomes its
/// entry in the table, and none is added or left out.
pub proof fn law_gain_reaches_every_sample(b: Seq<u8>, stereo: bool, table: Seq<i16>, i: int)
    requires
        table.len() == 65536,
        0 <= i < extracted(b, stereo, None).len(),
    ensures
        extracted(b, stereo, Some(table)).len() == extracted(b, stereo, None).len(),
        extracted(b, stereo, Some(table))[i] == table[(extracted(
            b,
            stereo,
            None,
        )[i] as u16) as int],
{
    reveal(extracted);
}

/// With one channel every sample is taken, as it is.
pub proof fn law_mono_is_taken_whole(pcm: Seq<i16>)
    ensures
        extracted(crate::bytes::sample_bytes(pcm), false, None) == pcm,
{
    reveal(extracted);
    let b = crate::bytes::sample_bytes(pcm);
    assert(b.subrange(0, (2 * pcm.len()) as int) =~= b);
    crate::bytes::lemma_samples_round_trip(b, 0, pcm);
    assert(extracted(b, false, None) =~= crate::bytes::samples_at(b, 0, pcm.len()));
}

/// From a stream of one channel come its samples, in order, however it is cut; bytes
/// that make no sample yet wait.
pub proof fn law_stream_becomes_its_samples(
    r: ReframerView,
    pcm: Seq<i16>,
    rest: Seq<u8>,
    cut: int,
)
    requires
        r.bytes.len() == 0,
        !r.stereo,
        r.gain is None,
        rest.len() < 2,
        0 <= cut <= (crate::bytes::sample_bytes(pcm) + rest).len(),
    ensures
        ({
            let all = crate::bytes::sample_bytes(pcm) + rest;
            let after = r.fed(all.take(cut)).fed(all.skip(cut));
            after.samples == r.samples + pcm && after.bytes == rest && !after.stereo && after.gain
                is None
        }),
{
    let body = crate::bytes::sample_bytes(pcm);
    let all = body + rest;
    law_datagram_cuts_do_not_matter(r, all.take(cut), all.skip(cut));
    assert(all.take(cut) + all.skip(cut) =~= all);
    assert(r.bytes + all =~= all);
    assert(all.take(body.len() as int) =~= body);
    assert(all.skip(body.len() as int) =~= rest);
    law_mono_is_taken_whole(pcm);
}

/// Of a stream of two channels the left one comes, in order, however it is cut.
pub proof fn law_stereo_stream_becomes_its_left_channel(
    r: ReframerView,
    left: Seq<i16>,
    right: Seq<i16>,
    b: Seq<u8>,
    cut: int,
)
    requires
        r.bytes.len() == 0,
        r.stereo,
        r.gain is None,
        left.len() == right.len(),
        b.len() == 4 * left.len(),
        forall|i: int|
            0 <= i < left.len() ==> b.subrange(4 * i, 4 * i + 4) == crate::bytes::le_sample(
                #[trigger] left[i],
            ) + crate::bytes::le_sample(right[i]),
        0 <= cut <= b.len(),
    ensures
        ({
            let after = r.fed(b.take(cut)).fed(b.skip(cut));
            after.samples == r.samples + left && after.bytes.len() == 0
        }),
{
    law_datagram_cuts_do_not_matter(r, b.take(cut), b.skip(cut));
    assert(b.take(cut) + b.skip(cut) =~= b);
    assert(r.bytes + b =~= b);
    assert(b.take(b.len() as int) =~= b);
    law_left_channel_is_taken(left, right, b);
}

/// The peak is how far the samples go to either side: none goes further, one goes
/// as far, and what a sample cannot hold is shown as the most that it can.
pub proof fn law_peak_is_reached(pcm: Seq<i16>)
    ensures
        forall|i: int|
            0 <= i < pcm.len() ==> (#[trigger] pcm[i]) <= peak(pcm) && -pcm[i] <= peak(pcm) + 1,
        forall|i: int|
            0 <= i < pcm.len() && -(#[trigger] pcm[i]) > peak(pcm) ==> pcm[i] == i16::MIN && peak(
                pcm,
            ) == 32767,
        pcm.len() > 0 ==> exists|i: int|
            0 <= i < pcm.len() && ((#[trigger] pcm[i]) == peak(pcm) || -pcm[i] == peak(pcm) || (
            pcm[i] == i16::MIN && peak(pcm) == 32767)),
        pcm.len() == 0 ==> peak(pcm) == 0,
{
    law_loudest_is_the_maximum(pcm);
    assert forall|i: int| 0 <= i < pcm.len() implies (#[trigger] pcm[i]) <= peak(pcm) && -pcm[i]
        <= peak(pcm) + 1 && (-pcm[i] > peak(pcm) ==> pcm[i] == i16::MIN && peak(pcm) == 32767) by {
        assert(magnitude(pcm[i]) <= loudest(pcm));
    }
    if pcm.len() > 0 {
        let i = choose|i: int| 0 <= i < pcm.len() && magnitude(#[trigger] pcm[i]) == loudest(pcm);
        assert(pcm[i] == peak(pcm) || -pcm[i] == peak(pcm) || (pcm[i] == i16::MIN && peak(pcm)
            == 32767));
    }
}

/// Frames of 240 samples are cut off the front, in order, as long as there are
/// enough; no sample is lost.
pub proof fn law_frames_are_cut_in_order(r: ReframerView)
    ensures
        r.frame() is Some == (r.samples.len() >= 240),
        r.frame() matches Some(f) ==> f.len() == 240 && f + r.after_frame().samples == r.samples,
        r.frame() is None ==> r.after_frame() == r,
        r.after_frame().bytes == r.bytes,
        r.after_frame().stereo == r.stereo,
        r.after_frame().gain == r.gain,
{
    if r.samples.len() >= 240 {
        assert(r.samples.take(240) + r.samples.skip(240) =~= r.samples);
    }
}

} // verus!
