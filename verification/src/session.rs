//! Call lifecycle: reconciles the stream of PCM frames with the stream of
//! metadata into a clean sequence of IPC frames.
//!
//! There is one call per transmission: `CallStart`, a run of `Voice`, a
//! `SrcChange` where the talker changes, and `CallEnd` when the metadata says so
//! or no PCM has come for a while. Time is passed in as milliseconds.
use crate::ipc::{BodyView, FlowDmrBody, FlowDmrFrame, FrameView, VOICE_FLAG_FIRST};
use crate::meta::MetaLine;
use crate::outside::is_stamp;
use crate::recorder::{Recorder, RecorderAction, RecorderView};
use std::collections::VecDeque;
use vstd::prelude::*;

verus! {

/// Ticks of the watchdog from one keepalive to the next.
pub const KEEPALIVE_TICKS: u64 = 20;

/// A sink for outbound IPC frames.
pub trait FrameSink {
    /// The frames taken so far.
    spec fn sent(&self) -> Seq<FrameView>;

    fn send(&mut self, frame: FlowDmrFrame)
        ensures
            final(self).sent() == old(self).sent().push(frame@),
    ;
}

/// Frames on their way out, oldest first.
pub struct FrameQueue {
    frames: VecDeque<FlowDmrFrame>,
}

impl View for FrameQueue {
    type V = Seq<FrameView>;

    closed spec fn view(&self) -> Seq<FrameView> {
        self.frames@.map_values(|f: FlowDmrFrame| f@)
    }
}

impl FrameSink for FrameQueue {
    open spec fn sent(&self) -> Seq<FrameView> {
        self@
    }

    fn send(&mut self, frame: FlowDmrFrame) {
        self.frames.push_back(frame);
        assert(self@ =~= old(self)@.push(frame@));
    }
}

impl FrameQueue {
    pub fn new() -> (r: Self)
        ensures
            r@ == Seq::<FrameView>::empty(),
    {
        let r = FrameQueue { frames: VecDeque::new() };
        assert(r@ =~= Seq::<FrameView>::empty());
        r
    }

    /// Takes the oldest frame out.
    pub fn pop(&mut self) -> (r: Option<FlowDmrFrame>)
        ensures
            match r {
                Some(f) => old(self)@.len() > 0 && f@ == old(self)@[0] && final(self)@
                    == old(self)@.drop_first(),
                None => old(self)@.len() == 0 && final(self)@ == old(self)@,
            },
    {
        let r = self.frames.pop_front();
        proof {
            if old(self)@.len() > 0 {
                assert(self@ =~= old(self)@.drop_first());
            } else {
                assert(self@ =~= old(self)@);
            }
        }
        r
    }
}

/// A call in progress.
#[derive(Clone, Copy)]
pub struct Session {
    pub stream_id: u32,
    pub source_id: u32,
    pub dmr_tg: u32,
    /// When PCM last came in.
    pub last_pcm_ms: u64,
    /// Number of the next voice frame, modulo 2^32.
    pub seq: u32,
    /// Whether no voice frame has been sent yet.
    pub first_voice_pending: bool,
}

/// Reconciles metadata and PCM into IPC frames, for one active call at a time.
pub struct CallManager {
    session: Option<Session>,
    next_stream_id: u32,
    calls_started: u64,
    /// If not 0, every call has this source id, and changes of talker are not
    /// passed on. With 0 the decoded ids are.
    fixed_source_id: u32,
    recorder: Recorder,
}

/// Mathematical value of a [`CallManager`].
pub struct ManagerView {
    pub session: Option<Session>,
    pub next_stream_id: u32,
    /// Calls started, modulo 2^64.
    pub calls_started: u64,
    pub fixed_source_id: u32,
    pub recorder: RecorderView,
}

/// A manager with the frames sent on the way to it.
pub struct ManagerStep {
    pub manager: ManagerView,
    pub sent: Seq<FrameView>,
}

impl View for CallManager {
    type V = ManagerView;

    closed spec fn view(&self) -> ManagerView {
        ManagerView {
            session: self.session,
            next_stream_id: self.next_stream_id,
            calls_started: self.calls_started,
            fixed_source_id: self.fixed_source_id,
            recorder: self.recorder@,
        }
    }
}

/// The stream id after `id`; 0 is left out.
pub open spec fn stream_after(id: u32) -> u32 {
    if id == u32::MAX {
        1
    } else {
        (id + 1) as u32
    }
}

impl ManagerView {
    /// What a manager keeps to: stream id 0 is not used for calls, and no voice
    /// has been numbered before the first voice frame.
    pub open spec fn valid(self) -> bool {
        &&& self.next_stream_id != 0
        &&& self.session matches Some(s) ==> s.stream_id != 0 && s.stream_id != self.next_stream_id
            && (s.first_voice_pending ==> s.seq == 0)
        &&& self.recorder.valid()
    }

    /// A call starts.
    pub open spec fn started(
        self,
        source_id: u32,
        dmr_tg: u32,
        target_gssi: u32,
        now_ms: u64,
    ) -> ManagerStep {
        let shown = if self.fixed_source_id != 0 {
            self.fixed_source_id
        } else {
            source_id
        };
        ManagerStep {
            manager: ManagerView {
                session: Some(
                    Session {
                        stream_id: self.next_stream_id,
                        source_id: shown,
                        dmr_tg,
                        last_pcm_ms: now_ms,
                        seq: 0,
                        first_voice_pending: true,
                    },
                ),
                next_stream_id: stream_after(self.next_stream_id),
                calls_started: self.calls_started.wrapping_add(1),
                recorder: self.recorder.started(source_id, dmr_tg),
                ..self
            },
            sent: seq![
                FrameView {
                    stream_id: self.next_stream_id,
                    body: BodyView::CallStart { source_id: shown, dmr_tg, target_gssi, priority: 0 },
                },
            ],
        }
    }

    /// The call in progress, if any, ends.
    pub open spec fn ended(self) -> ManagerStep {
        let manager = ManagerView {
            session: None,
            recorder: self.recorder.finished(),
            ..self
        };
        match self.session {
            Some(s) => ManagerStep {
                manager,
                sent: seq![FrameView { stream_id: s.stream_id, body: BodyView::CallEnd }],
            },
            None => ManagerStep { manager, sent: seq![] },
        }
    }

    /// Metadata comes in.
    pub open spec fn after_meta(self, m: MetaLine, target_gssi: u32, now_ms: u64) -> ManagerStep {
        if m.call_end {
            self.ended()
        } else if m.source is None && m.talkgroup is None {
            ManagerStep { manager: self, sent: seq![] }
        } else {
            let noted = ManagerView { recorder: self.recorder.noted(m.source, m.talkgroup), ..self };
            match self.session {
                None => noted.started(
                    m.source.unwrap_or(0),
                    m.talkgroup.unwrap_or(0),
                    target_gssi,
                    now_ms,
                ),
                Some(s) => {
                    let placed = Session { dmr_tg: m.talkgroup.unwrap_or(s.dmr_tg), ..s };
                    let source = m.source.unwrap_or(s.source_id);
                    if self.fixed_source_id == 0 && source != s.source_id {
                        ManagerStep {
                            manager: ManagerView {
                                session: Some(Session { source_id: source, ..placed }),
                                ..noted
                            },
                            sent: seq![
                                FrameView {
                                    stream_id: s.stream_id,
                                    body: BodyView::SrcChange { source_id: source },
                                },
                            ],
                        }
                    } else {
                        ManagerStep {
                            manager: ManagerView { session: Some(placed), ..noted },
                            sent: seq![],
                        }
                    }
                },
            }
        }
    }

    /// A PCM frame is passed on within the call in progress.
    pub open spec fn voiced(self, s: Session, pcm: Seq<i16>, now_ms: u64) -> ManagerStep {
        ManagerStep {
            manager: ManagerView {
                session: Some(
                    Session {
                        last_pcm_ms: now_ms,
                        seq: s.seq.wrapping_add(1),
                        first_voice_pending: false,
                        ..s
                    },
                ),
                recorder: self.recorder.wrote(pcm),
                ..self
            },
            sent: seq![
                FrameView {
                    stream_id: s.stream_id,
                    body: BodyView::Voice {
                        seq: s.seq,
                        flags: if s.first_voice_pending {
                            VOICE_FLAG_FIRST
                        } else {
                            0
                        },
                        pcm,
                    },
                },
            ],
        }
    }

    /// A PCM frame comes in. Without a call in progress one starts, so that the
    /// start of the transmission is not lost.
    pub open spec fn after_pcm(self, pcm: Seq<i16>, target_gssi: u32, now_ms: u64) -> ManagerStep {
        match self.session {
            Some(s) => self.voiced(s, pcm, now_ms),
            None => {
                let start = self.started(0, 0, target_gssi, now_ms);
                let voice = start.manager.voiced(start.manager.session->0, pcm, now_ms);
                ManagerStep { manager: voice.manager, sent: start.sent + voice.sent }
            },
        }
    }

    /// Whether no PCM has come in for the time given.
    pub open spec fn silent(self, now_ms: u64, silence_timeout_ms: u64) -> bool {
        self.session matches Some(s) && (if now_ms > s.last_pcm_ms {
            now_ms - s.last_pcm_ms
        } else {
            0
        }) >= silence_timeout_ms
    }

    /// The silence watchdog looks.
    pub open spec fn ticked(self, now_ms: u64, silence_timeout_ms: u64) -> ManagerStep {
        if self.silent(now_ms, silence_timeout_ms) {
            self.ended()
        } else {
            ManagerStep { manager: self, sent: seq![] }
        }
    }
}

/// Whether a keepalive is due at a tick, by the number of ticks so far.
pub open spec fn keepalive_due(ticks: u64) -> bool {
    ticks % KEEPALIVE_TICKS == 0
}

/// The frame that says the sender is there.
pub open spec fn keepalive_frame() -> FrameView {
    FrameView { stream_id: 0, body: BodyView::Keepalive }
}

impl CallManager {
    /// A manager with no call in progress and no recorder.
    pub fn new(fixed_source_id: u32) -> (r: Self)
        ensures
            r@ == (ManagerView {
                session: None,
                next_stream_id: 1,
                calls_started: 0,
                fixed_source_id,
                recorder: RecorderView::off(),
            }),
            r@.valid(),
    {
        CallManager {
            session: None,
            next_stream_id: 1,
            calls_started: 0,
            fixed_source_id,
            recorder: Recorder::disabled(),
        }
    }

    /// Attaches a call recorder.
    pub fn set_recorder(&mut self, recorder: Recorder)
        ensures
            final(self)@ == (ManagerView { recorder: recorder@, ..old(self)@ }),
    {
        self.recorder = recorder;
    }

    pub fn has_active_call(&self) -> (r: bool)
        ensures
            r == (self@.session is Some),
    {
        self.session.is_some()
    }

    /// The source id of the call in progress.
    pub fn current_source(&self) -> (r: Option<u32>)
        ensures
            r == (match self@.session {
                Some(s) => Some(s.source_id),
                None => None,
            }),
    {
        match self.session {
            Some(s) => Some(s.source_id),
            None => None,
        }
    }

    /// Number of calls started.
    pub fn calls_started(&self) -> (r: u64)
        ensures
            r == self@.calls_started,
    {
        self.calls_started
    }

    /// What the recorder has to be done on disk next.
    pub fn recorder_action(&mut self) -> (r: Option<RecorderAction>)
        ensures
            final(self)@ == (ManagerView {
                recorder: old(self)@.recorder.next().recorder,
                ..old(self)@
            }),
            match r {
                Some(a) => old(self)@.recorder.next().action == Some(a@),
                None => old(self)@.recorder.next().action is None,
            },
    {
        self.recorder.next_action()
    }

    /// The outcome of the recorder's last action comes back. A file that was begun
    /// has the local time.
    pub fn recorder_report(&mut self, ok: bool)
        ensures
            exists|now: Seq<char>|
                {
                    &&& final(self)@ == (ManagerView {
                        recorder: #[trigger] old(self)@.recorder.reported(ok, now),
                        ..old(self)@
                    })
                    &&& old(self)@.recorder.begins(ok) ==> is_stamp(now)
                },
    {
        self.recorder.report(ok);
    }

    /// Applies a parsed metadata line.
    pub fn on_meta<S: FrameSink>(
        &mut self,
        m: &MetaLine,
        target_gssi: u32,
        now_ms: u64,
        sink: &mut S,
    )
        ensures
            final(self)@ == old(self)@.after_meta(*m, target_gssi, now_ms).manager,
            final(sink).sent() == old(sink).sent() + old(self)@.after_meta(
                *m,
                target_gssi,
                now_ms,
            ).sent,
    {
        if m.call_end {
            self.end_call(sink);
            return ;
        }
        let ghost none = Seq::<FrameView>::empty();
        if m.source.is_none() && m.talkgroup.is_none() {
            assert(sink.sent() =~= old(sink).sent() + none);
            return ;
        }
        self.recorder.note_meta(m.source, m.talkgroup);
        let mut s = match self.session {
            Some(s) => s,
            None => {
                let source = match m.source {
                    Some(id) => id,
                    None => 0,
                };
                let talkgroup = match m.talkgroup {
                    Some(id) => id,
                    None => 0,
                };
                self.start_call(source, talkgroup, target_gssi, now_ms, sink);
                return ;
            },
        };
        if let Some(tg) = m.talkgroup {
            s.dmr_tg = tg;
        }
        if self.fixed_source_id == 0 {
            if let Some(src) = m.source {
                if src != s.source_id {
                    s.source_id = src;
                    self.session = Some(s);
                    let frame = FlowDmrFrame::new(
                        s.stream_id,
                        FlowDmrBody::SrcChange { source_id: src },
                    );
                    sink.send(frame);
                    assert(sink.sent() =~= old(sink).sent() + seq![frame@]);
                    return ;
                }
            }
        }
        self.session = Some(s);
        assert(sink.sent() =~= old(sink).sent() + none);
    }

    /// Applies one 30 ms PCM frame.
    pub fn on_pcm<S: FrameSink>(
        &mut self,
        pcm: Vec<i16>,
        target_gssi: u32,
        now_ms: u64,
        sink: &mut S,
    )
        ensures
            final(self)@ == old(self)@.after_pcm(pcm@, target_gssi, now_ms).manager,
            final(sink).sent() == old(sink).sent() + old(self)@.after_pcm(
                pcm@,
                target_gssi,
                now_ms,
            ).sent,
    {
        let mut s = match self.session {
            Some(s) => s,
            None => self.start_call(0, 0, target_gssi, now_ms, sink),
        };
        let ghost mid = sink.sent();
        self.recorder.write(pcm.as_slice());
        s.last_pcm_ms = now_ms;
        let flags: u16 = if s.first_voice_pending {
            s.first_voice_pending = false;
            VOICE_FLAG_FIRST
        } else {
            0
        };
        let seq = s.seq;
        s.seq = s.seq.wrapping_add(1);
        self.session = Some(s);
        let frame = FlowDmrFrame::new(s.stream_id, FlowDmrBody::Voice { seq, flags, pcm });
        sink.send(frame);
        proof {
            let step = old(self)@.after_pcm(pcm@, target_gssi, now_ms);
            assert(sink.sent() =~= old(sink).sent() + step.sent);
        }
    }

    /// Watchdog: ends the call when no PCM has come in for `silence_timeout_ms`.
    pub fn tick<S: FrameSink>(&mut self, now_ms: u64, silence_timeout_ms: u64, sink: &mut S)
        ensures
            final(self)@ == old(self)@.ticked(now_ms, silence_timeout_ms).manager,
            final(sink).sent() == old(sink).sent() + old(self)@.ticked(
                now_ms,
                silence_timeout_ms,
            ).sent,
    {
        let ended = match self.session {
            Some(s) => now_ms.saturating_sub(s.last_pcm_ms) >= silence_timeout_ms,
            None => false,
        };
        if ended {
            self.end_call(sink);
        } else {
            assert(sink.sent() =~= old(sink).sent() + Seq::<FrameView>::empty());
        }
    }

    /// Sends a keepalive, so that the other side can tell that this one is there.
    pub fn keepalive<S: FrameSink>(&self, sink: &mut S)
        ensures
            final(sink).sent() == old(sink).sent().push(keepalive_frame()),
    {
        sink.send(FlowDmrFrame::new(0, FlowDmrBody::Keepalive));
    }

    fn start_call<S: FrameSink>(
        &mut self,
        source_id: u32,
        dmr_tg: u32,
        target_gssi: u32,
        now_ms: u64,
        sink: &mut S,
    ) -> (r: Session)
        ensures
            final(self)@ == old(self)@.started(source_id, dmr_tg, target_gssi, now_ms).manager,
            final(self)@.session == Some(r),
            final(sink).sent() == old(sink).sent() + old(self)@.started(
                source_id,
                dmr_tg,
                target_gssi,
                now_ms,
            ).sent,
    {
        // The recording has the decoded ids, whatever is shown.
        self.recorder.start(source_id, dmr_tg);
        let source_id = if self.fixed_source_id != 0 {
            self.fixed_source_id
        } else {
            source_id
        };
        let stream_id = self.next_stream_id;
        self.next_stream_id = if stream_id == u32::MAX {
            1
        } else {
            stream_id + 1
        };
        self.calls_started = self.calls_started.wrapping_add(1);
        let s = Session {
            stream_id,
            source_id,
            dmr_tg,
            last_pcm_ms: now_ms,
            seq: 0,
            first_voice_pending: true,
        };
        self.session = Some(s);
        let frame = FlowDmrFrame::new(
            stream_id,
            FlowDmrBody::CallStart { source_id, dmr_tg, target_gssi, priority: 0 },
        );
        sink.send(frame);
        assert(sink.sent() =~= old(sink).sent() + seq![frame@]);
        s
    }

    fn end_call<S: FrameSink>(&mut self, sink: &mut S)
        ensures
            final(self)@ == old(self)@.ended().manager,
            final(sink).sent() == old(sink).sent() + old(self)@.ended().sent,
    {
        self.recorder.finish();
        if let Some(s) = self.session.take() {
            let frame = FlowDmrFrame::new(s.stream_id, FlowDmrBody::CallEnd);
            sink.send(frame);
            assert(sink.sent() =~= old(sink).sent() + seq![frame@]);
        } else {
            assert(sink.sent() =~= old(sink).sent() + Seq::<FrameView>::empty());
        }
    }
}

/// Ends silent calls, and sends a keepalive every so many ticks.
pub struct Watchdog {
    ticks: u64,
}

impl View for Watchdog {
    type V = u64;

    closed spec fn view(&self) -> u64 {
        self.ticks
    }
}

impl Watchdog {
    pub fn new() -> (r: Self)
        ensures
            r@ == 0,
    {
        Watchdog { ticks: 0 }
    }

    /// One tick: every [`KEEPALIVE_TICKS`]th one sends a keepalive too.
    pub fn tick<S: FrameSink>(
        &mut self,
        manager: &mut CallManager,
        now_ms: u64,
        silence_timeout_ms: u64,
        sink: &mut S,
    )
        ensures
            final(self)@ == old(self)@.wrapping_add(1),
            final(manager)@ == old(manager)@.ticked(now_ms, silence_timeout_ms).manager,
            ({
                let sent = old(sink).sent() + old(manager)@.ticked(now_ms, silence_timeout_ms).sent;
                final(sink).sent() == if keepalive_due(final(self)@) {
                    sent.push(keepalive_frame())
                } else {
                    sent
                }
            }),
    {
        manager.tick(now_ms, silence_timeout_ms, sink);
        self.ticks = self.ticks.wrapping_add(1);
        if self.ticks % KEEPALIVE_TICKS == 0 {
            manager.keepalive(sink);
        }
    }
}

} // verus!
