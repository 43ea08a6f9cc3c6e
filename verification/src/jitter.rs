//! Per-call playout jitter buffer for downlink voice.
//!
//! Holds encoded ACELP blocks and releases one per playout tick (about 57 ms,
//! one TETRA traffic frame).
use std::collections::VecDeque;
use vstd::prelude::*;

verus! {

pub const MIN_FRAMES: usize = 2;

pub const BASE_FRAMES: usize = 4;

pub const TARGET_MAX_FRAMES: usize = 12;

pub const MAX_FRAMES: usize = 24;

/// Undisturbed pops after which one step of underrun boost is given back.
pub const STABLE_POPS: u32 = 80;

/// Most steps that underruns can add to the target.
pub const MAX_BOOST: usize = 4;

/// Adaptive playout buffer for one call's ACELP voice blocks.
pub struct VoiceJitterBuffer {
    frames: VecDeque<Vec<u8>>,
    started: bool,
    target_frames: usize,
    underrun_boost: usize,
    stable_pops: u32,
    dropped_overflow: u64,
    underruns: u64,
    initial_latency_frames: usize,
}

/// Mathematical value of a [`VoiceJitterBuffer`].
pub struct JitterView {
    /// The blocks held, oldest first.
    pub frames: Seq<Seq<u8>>,
    /// Whether playout has started since the buffer last ran dry.
    pub started: bool,
    /// Blocks wanted before playout starts; 0 stands for "not set yet".
    pub target: int,
    /// Steps that underruns have added to the target.
    pub boost: int,
    /// Pops in a row that left at least the target behind.
    pub stable_pops: int,
    /// Blocks dropped because the buffer was full, modulo 2^64.
    pub dropped: u64,
    /// Times the buffer ran dry, modulo 2^64.
    pub underruns: u64,
    /// Extra blocks of latency asked for at construction.
    pub latency: int,
}

/// `x` held between `lo` and `hi`.
pub open spec fn clamp(x: int, lo: int, hi: int) -> int {
    if x < lo {
        lo
    } else if x > hi {
        hi
    } else {
        x
    }
}

impl JitterView {
    /// What holds of every buffer.
    pub open spec fn valid(self) -> bool {
        &&& self.frames.len() <= MAX_FRAMES
        &&& 0 <= self.latency <= TARGET_MAX_FRAMES - MIN_FRAMES
        &&& 0 <= self.boost <= MAX_BOOST
        &&& 0 <= self.stable_pops < STABLE_POPS
        &&& self.target == 0 || MIN_FRAMES <= self.target <= BASE_FRAMES + TARGET_MAX_FRAMES
            - MIN_FRAMES
    }

    /// A buffer that has seen nothing yet.
    pub open spec fn fresh(target: int, latency: int) -> JitterView {
        JitterView {
            frames: seq![],
            started: false,
            target,
            boost: 0,
            stable_pops: 0,
            dropped: 0,
            underruns: 0,
            latency,
        }
    }

    /// The buffer with its target set.
    pub open spec fn armed(self) -> JitterView {
        if self.target == 0 {
            JitterView { target: BASE_FRAMES + self.latency, ..self }
        } else {
            self
        }
    }

    /// The target that the current boost asks for.
    pub open spec fn boosted_target(self) -> int {
        clamp(BASE_FRAMES + self.latency + self.boost, MIN_FRAMES as int, TARGET_MAX_FRAMES as int)
    }

    /// The buffer after one more block: the oldest block goes when there is no room.
    pub open spec fn pushed(self, block: Seq<u8>) -> JitterView {
        let armed = self.armed();
        let frames = self.frames.push(block);
        if frames.len() > MAX_FRAMES {
            JitterView {
                frames: frames.drop_first(),
                dropped: self.dropped.wrapping_add(1),
                ..armed
            }
        } else {
            JitterView { frames, ..armed }
        }
    }

    /// Whether a ready pop gets as far as the blocks: playout has started, or
    /// enough blocks are there to start it.
    pub open spec fn primed(self) -> bool {
        self.started || self.frames.len() >= self.armed().target
    }

    /// The block that a ready pop releases.
    pub open spec fn ready(self) -> Option<Seq<u8>> {
        if self.primed() && self.frames.len() > 0 {
            Some(self.frames[0])
        } else {
            None
        }
    }

    /// The buffer after a ready pop.
    pub open spec fn after_ready(self) -> JitterView {
        let armed = self.armed();
        if !self.primed() {
            armed
        } else if self.frames.len() == 0 {
            let boost = if self.boost < MAX_BOOST {
                self.boost + 1
            } else {
                MAX_BOOST as int
            };
            let dry = JitterView {
                started: false,
                underruns: self.underruns.wrapping_add(1),
                boost,
                stable_pops: 0,
                ..armed
            };
            JitterView { target: dry.boosted_target(), ..dry }
        } else {
            let popped = JitterView { frames: self.frames.drop_first(), started: true, ..armed };
            if popped.frames.len() < popped.target {
                JitterView { stable_pops: 0, ..popped }
            } else if self.stable_pops + 1 < STABLE_POPS {
                JitterView { stable_pops: self.stable_pops + 1, ..popped }
            } else if self.boost > 0 {
                let calm = JitterView { stable_pops: 0, boost: self.boost - 1, ..popped };
                JitterView { target: calm.boosted_target(), ..calm }
            } else {
                JitterView { stable_pops: 0, ..popped }
            }
        }
    }

    /// The block that a drain releases.
    pub open spec fn drained(self) -> Option<Seq<u8>> {
        if self.frames.len() > 0 {
            Some(self.frames[0])
        } else {
            None
        }
    }

    /// The buffer after a drain.
    pub open spec fn after_drain(self) -> JitterView {
        if self.frames.len() > 0 {
            JitterView { frames: self.frames.drop_first(), ..self }
        } else {
            self
        }
    }

    /// The buffer after a flush: empty, and priming from the start again.
    pub open spec fn flushed(self) -> JitterView {
        JitterView {
            frames: seq![],
            started: false,
            boost: 0,
            stable_pops: 0,
            target: BASE_FRAMES + self.latency,
            ..self
        }
    }

    /// The buffer after `n` drains.
    pub open spec fn after_drains(self, n: nat) -> JitterView
        decreases n,
    {
        if n == 0 {
            self
        } else {
            self.after_drains((n - 1) as nat).after_drain()
        }
    }
}

/// Every operation keeps a valid buffer valid; so at most [`MAX_FRAMES`] blocks
/// are ever held.
pub proof fn law_operations_keep_valid(j: JitterView, block: Seq<u8>)
    requires
        j.valid(),
    ensures
        j.pushed(block).valid(),
        j.after_ready().valid(),
        j.after_drain().valid(),
        j.flushed().valid(),
{
}

/// Before playout starts, a pop releases nothing until the target is reached,
/// and from there on the oldest block.
pub proof fn law_primes_until_target(j: JitterView)
    requires
        j.valid(),
        !j.started,
    ensures
        j.frames.len() < j.armed().target ==> j.ready() is None && j.after_ready() == j.armed(),
        j.frames.len() >= j.armed().target ==> j.ready() == Some(j.frames[0])
            && j.after_ready().started,
{
}

/// Whatever is released is the oldest block held, and only it leaves: blocks
/// come out in the order in which they went in.
pub proof fn law_first_in_first_out(j: JitterView, block: Seq<u8>)
    requires
        j.valid(),
    ensures
        j.ready() matches Some(b) ==> b == j.frames[0] && j.after_ready().frames
            == j.frames.drop_first(),
        j.ready() is None ==> j.after_ready().frames == j.frames,
        j.drained() matches Some(b) ==> b == j.frames[0] && j.after_drain().frames
            == j.frames.drop_first(),
        j.pushed(block).frames.last() == block,
        j.frames.len() < MAX_FRAMES ==> j.pushed(block).frames == j.frames.push(block),
        j.frames.len() == MAX_FRAMES ==> j.pushed(block).frames == j.frames.drop_first().push(block),
{
    if j.frames.len() == MAX_FRAMES {
        assert(j.frames.push(block).drop_first() =~= j.frames.drop_first().push(block));
    }
}

/// Running dry stops playout and raises the target by one step, up to the limit.
pub proof fn law_underrun_reprimes(j: JitterView)
    requires
        j.valid(),
        j.started,
        j.frames.len() == 0,
    ensures
        j.ready() is None,
        !j.after_ready().started,
        j.after_ready().ready() is None,
        j.after_ready().boost == clamp(j.boost + 1, 0, MAX_BOOST as int),
        MIN_FRAMES <= j.after_ready().target <= TARGET_MAX_FRAMES,
{
}

/// After a flush the buffer is empty and releases nothing before it has primed again.
pub proof fn law_flush_reprimes(j: JitterView)
    requires
        j.valid(),
    ensures
        j.flushed().frames.len() == 0,
        j.flushed().ready() is None,
        j.flushed().flushed() == j.flushed(),
{
}

/// Draining releases every block held, oldest first, and then nothing: no
/// trailing audio is lost.
pub proof fn law_drain_releases_everything(j: JitterView, n: nat)
    ensures
        n <= j.frames.len() ==> j.after_drains(n).frames == j.frames.skip(n as int),
        n < j.frames.len() ==> j.after_drains(n).drained() == Some(j.frames[n as int]),
        n >= j.frames.len() ==> j.after_drains(n).drained() is None,
    decreases n,
{
    if n > 0 {
        law_drain_releases_everything(j, (n - 1) as nat);
        let before = j.after_drains((n - 1) as nat);
        if n <= j.frames.len() {
            assert(before.frames.drop_first() =~= j.frames.skip(n as int));
        }
    } else {
        assert(j.frames.skip(0) =~= j.frames);
    }
}

impl View for VoiceJitterBuffer {
    type V = JitterView;

    closed spec fn view(&self) -> JitterView {
        JitterView {
            frames: self.frames@.map_values(|f: Vec<u8>| f@),
            started: self.started,
            target: self.target_frames as int,
            boost: self.underrun_boost as int,
            stable_pops: self.stable_pops as int,
            dropped: self.dropped_overflow,
            underruns: self.underruns,
            latency: self.initial_latency_frames as int,
        }
    }
}

impl Default for VoiceJitterBuffer {
    fn default() -> (r: Self)
        ensures
            r@ == JitterView::fresh(0, 0),
            r@.valid(),
    {
        let r = VoiceJitterBuffer {
            frames: VecDeque::new(),
            started: false,
            target_frames: 0,
            underrun_boost: 0,
            stable_pops: 0,
            dropped_overflow: 0,
            underruns: 0,
            initial_latency_frames: 0,
        };
        assert(r@.frames =~= seq![]);
        r
    }
}

impl VoiceJitterBuffer {
    pub fn with_initial_latency(initial_latency_frames: usize) -> (r: Self)
        ensures
            r@ == JitterView::fresh(
                BASE_FRAMES + clamp(initial_latency_frames as int, 0, TARGET_MAX_FRAMES - MIN_FRAMES),
                clamp(initial_latency_frames as int, 0, TARGET_MAX_FRAMES - MIN_FRAMES),
            ),
            r@.valid(),
    {
        let initial: usize = if initial_latency_frames < TARGET_MAX_FRAMES - MIN_FRAMES {
            initial_latency_frames
        } else {
            TARGET_MAX_FRAMES - MIN_FRAMES
        };
        let mut r = VoiceJitterBuffer::default();
        r.target_frames = BASE_FRAMES + initial;
        r.initial_latency_frames = initial;
        assert(r@.frames =~= seq![]);
        r
    }

    fn arm(&mut self)
        requires
            old(self)@.valid(),
        ensures
            final(self)@ == old(self)@.armed(),
            final(self).frames == old(self).frames,
    {
        if self.target_frames == 0 {
            self.target_frames = BASE_FRAMES + self.initial_latency_frames;
        }
    }

    /// Queue one encoded ACELP block.
    pub fn push(&mut self, acelp_data: Vec<u8>)
        requires
            old(self)@.valid(),
        ensures
            final(self)@ == old(self)@.pushed(acelp_data@),
            final(self)@.valid(),
    {
        self.arm();
        let ghost before = self@;
        self.frames.push_back(acelp_data);
        assert(self@.frames =~= before.frames.push(acelp_data@));
        if self.frames.len() > MAX_FRAMES {
            let _ = self.frames.pop_front();
            self.dropped_overflow = self.dropped_overflow.wrapping_add(1);
            assert(self@.frames =~= before.frames.push(acelp_data@).drop_first());
        }
    }

    /// Release the next block once enough have buffered, then one per call.
    /// `None` while priming or when the buffer has run dry.
    pub fn pop_ready(&mut self) -> (r: Option<Vec<u8>>)
        requires
            old(self)@.valid(),
        ensures
            match r {
                Some(b) => old(self)@.ready() == Some(b@),
                None => old(self)@.ready() is None,
            },
            final(self)@ == old(self)@.after_ready(),
            final(self)@.valid(),
    {
        self.arm();
        let ghost armed = self@;
        if !self.started {
            if self.frames.len() < self.target_frames {
                return None;
            }
            self.started = true;
        }
        match self.frames.pop_front() {
            Some(frame) => {
                assert(self@.frames =~= armed.frames.drop_first());
                if self.frames.len() >= self.target_frames {
                    self.stable_pops = self.stable_pops.saturating_add(1);
                    if self.stable_pops >= STABLE_POPS {
                        self.stable_pops = 0;
                        if self.underrun_boost > 0 {
                            self.underrun_boost = self.underrun_boost - 1;
                            self.recompute_target();
                        }
                    }
                } else {
                    self.stable_pops = 0;
                }
                Some(frame)
            },
            None => {
                self.started = false;
                self.underruns = self.underruns.wrapping_add(1);
                self.underrun_boost = if self.underrun_boost + 1 < MAX_BOOST {
                    self.underrun_boost + 1
                } else {
                    MAX_BOOST
                };
                self.stable_pops = 0;
                self.recompute_target();
                None
            },
        }
    }

    /// Unconditional drain: after end of transmission trailing audio plays out
    /// instead of being clipped.
    pub fn pop_drain(&mut self) -> (r: Option<Vec<u8>>)
        requires
            old(self)@.valid(),
        ensures
            match r {
                Some(b) => old(self)@.drained() == Some(b@),
                None => old(self)@.drained() is None,
            },
            final(self)@ == old(self)@.after_drain(),
            final(self)@.valid(),
    {
        let r = self.frames.pop_front();
        proof {
            if old(self)@.frames.len() > 0 {
                assert(self@.frames =~= old(self)@.frames.drop_first());
            } else {
                assert(self@.frames =~= old(self)@.frames);
            }
        }
        r
    }

    pub fn is_empty(&self) -> (r: bool)
        ensures
            r == (self@.frames.len() == 0),
    {
        self.frames.len() == 0
    }

    pub fn len(&self) -> (r: usize)
        ensures
            r == self@.frames.len(),
    {
        self.frames.len()
    }

    /// Drop all buffered audio (speaker change / teardown) and prime again.
    pub fn flush(&mut self) -> (count: usize)
        requires
            old(self)@.valid(),
        ensures
            count == old(self)@.frames.len(),
            final(self)@ == old(self)@.flushed(),
            final(self)@.valid(),
    {
        let count: usize = self.frames.len();
        self.frames.clear();
        self.started = false;
        self.underrun_boost = 0;
        self.stable_pops = 0;
        self.target_frames = BASE_FRAMES + self.initial_latency_frames;
        assert(self@.frames =~= seq![]);
        count
    }

    fn recompute_target(&mut self)
        requires
            old(self)@.latency <= TARGET_MAX_FRAMES - MIN_FRAMES,
            old(self)@.boost <= MAX_BOOST,
        ensures
            final(self)@ == (JitterView { target: old(self)@.boosted_target(), ..old(self)@ }),
            final(self).frames == old(self).frames,
    {
        let target: usize = BASE_FRAMES + self.initial_latency_frames + self.underrun_boost;
        self.target_frames = if target < MIN_FRAMES {
            MIN_FRAMES
        } else if target > TARGET_MAX_FRAMES {
            TARGET_MAX_FRAMES
        } else {
            target
        };
    }
}

/// A new buffer is empty and wants four blocks before playout starts, and one more
/// for each block of latency that was asked for, up to ten.
pub proof fn law_new_buffer_wants_four_blocks(latency: int, target: int)
    requires
        0 <= latency,
    ensures
        clamp(latency, 0, TARGET_MAX_FRAMES - MIN_FRAMES) == (if latency < 10 {
            latency
        } else {
            10
        }),
        BASE_FRAMES == 4,
        JitterView::fresh(target, latency).frames.len() == 0,
        !JitterView::fresh(target, latency).started,
        JitterView::fresh(target, latency).target == target,
        JitterView::fresh(target, latency).latency == latency,
        JitterView::fresh(target, latency).boost == 0,
        JitterView::fresh(target, latency).stable_pops == 0,
        JitterView::fresh(target, latency).dropped == 0,
        JitterView::fresh(target, latency).underruns == 0,
{
}

/// A block is released exactly when one is there and playout has started or the
/// target is reached; it is the oldest. Before that the buffer stays as it is.
pub proof fn law_release_condition(j: JitterView)
    requires
        j.valid(),
        j.target > 0,
    ensures
        (j.ready() is Some) == (j.frames.len() > 0 && (j.started || j.frames.len() >= j.target)),
        j.ready() matches Some(b) ==> b == j.frames[0] && j.after_ready().frames
            == j.frames.drop_first() && j.after_ready().started && j.after_ready().dropped
            == j.dropped && j.after_ready().underruns == j.underruns && j.after_ready().latency
            == j.latency,
        !j.started && j.frames.len() < j.target ==> j.after_ready() == j,
{
}

/// A buffer whose target is not set yet wants four blocks and its latency.
pub proof fn law_unset_target_is_four_and_the_latency(j: JitterView, block: Seq<u8>)
    requires
        j.valid(),
        j.target == 0,
    ensures
        j.pushed(block).target == 4 + j.latency,
        !j.started && j.frames.len() < 4 + j.latency ==> j.ready() is None && j.after_ready() == (
        JitterView { target: 4 + j.latency, ..j }),
        !j.started && j.frames.len() >= 4 + j.latency ==> j.ready() == Some(j.frames[0]),
{
}

/// A buffer holds 24 blocks: one more drops the oldest, and is counted. A block that
/// comes in changes nothing else.
pub proof fn law_full_buffer_drops_the_oldest(j: JitterView, block: Seq<u8>)
    requires
        j.valid(),
        j.target > 0,
    ensures
        j.frames.len() < 24 ==> j.pushed(block) == (JitterView {
            frames: j.frames.push(block),
            ..j
        }),
        j.frames.len() == 24 ==> j.pushed(block) == (JitterView {
            frames: j.frames.drop_first().push(block),
            dropped: j.dropped.wrapping_add(1),
            ..j
        }),
        j.frames.len() <= 24,
{
    law_first_in_first_out(j, block);
}

/// Running dry stops playout, is counted, and has one block more wanted from then
/// on than before, up to four more and never more than twelve.
pub proof fn law_running_dry_wants_more(j: JitterView)
    requires
        j.valid(),
        j.started,
        j.frames.len() == 0,
    ensures
        ({
            let after = j.after_ready();
            let boost = if j.boost + 1 < 4 {
                j.boost + 1
            } else {
                4
            };
            let target = 4 + j.latency + boost;
            after == (JitterView {
                started: false,
                boost,
                target: if target > 12 {
                    12
                } else {
                    target
                },
                stable_pops: 0,
                underruns: j.underruns.wrapping_add(1),
                ..j
            })
        }),
{
}

/// A pop that leaves fewer blocks than the target starts the count of steady pops
/// again. Of those that leave enough, every eightieth in a row gives one step of
/// what underruns have added back.
pub proof fn law_steady_playout_wants_less(j: JitterView)
    requires
        j.valid(),
        j.started,
        j.target > 0,
        j.frames.len() > 0,
    ensures
        ({
            let after = j.after_ready();
            let left = j.frames.len() - 1;
            let target = 4 + j.latency + j.boost - 1;
            &&& left < j.target ==> after.stable_pops == 0 && after.boost == j.boost && after.target
                == j.target
            &&& left >= j.target && j.stable_pops < 79 ==> after.stable_pops == j.stable_pops + 1
                && after.boost == j.boost && after.target == j.target
            &&& left >= j.target && j.stable_pops == 79 && j.boost == 0 ==> after.stable_pops == 0
                && after.boost == 0 && after.target == j.target
            &&& left >= j.target && j.stable_pops == 79 && j.boost > 0 ==> after.stable_pops == 0
                && after.boost == j.boost - 1 && after.target == (if target > 12 {
                12
            } else {
                target
            })
        }),
{
}

/// A drain takes the oldest block and touches nothing else; a flush empties the
/// buffer and has it start afresh, with its counts and its latency kept.
pub proof fn law_drain_and_flush_effects(j: JitterView)
    requires
        j.valid(),
    ensures
        j.frames.len() > 0 ==> j.drained() == Some(j.frames[0]) && j.after_drain() == (JitterView {
            frames: j.frames.drop_first(),
            ..j
        }),
        j.frames.len() == 0 ==> j.drained() is None && j.after_drain() == j,
        j.flushed() == (JitterView {
            frames: seq![],
            started: false,
            boost: 0,
            stable_pops: 0,
            target: 4 + j.latency,
            ..j
        }),
{
}

} // verus!
