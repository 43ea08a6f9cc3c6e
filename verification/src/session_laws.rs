//! What holds of the call manager as a whole.
use crate::ipc::{BodyView, FrameView, VOICE_FLAG_FIRST};
use crate::meta::MetaLine;
use crate::recorder::OpView;
use crate::recorder_laws::law_actions_keep_valid;
use crate::session::{keepalive_due, keepalive_frame, stream_after, ManagerStep, ManagerView};
use vstd::prelude::*;

verus! {

/// A call as the receiving side sees it.
pub struct Talk {
    pub stream_id: u32,
    pub source_id: u32,
    /// Number that the next voice frame must have.
    pub seq: u32,
    /// Whether the next voice frame is the first.
    pub first: bool,
}

/// Whether a frame is in order when it follows the state `talk`.
pub open spec fn in_order(talk: Option<Talk>, f: FrameView) -> bool {
    match f.body {
        BodyView::CallStart { source_id, dmr_tg, target_gssi, priority } => talk is None
            && f.stream_id != 0,
        BodyView::Voice { seq, flags, pcm } => talk matches Some(t) && f.stream_id == t.stream_id
            && seq == t.seq && flags == (if t.first {
            VOICE_FLAG_FIRST
        } else {
            0
        }),
        BodyView::SrcChange { source_id } => talk matches Some(t) && f.stream_id == t.stream_id
            && source_id != t.source_id,
        BodyView::CallEnd => talk matches Some(t) && f.stream_id == t.stream_id,
        BodyView::Keepalive => f.stream_id == 0,
    }
}

/// The state that a frame leads to.
pub open spec fn talk_after(talk: Option<Talk>, f: FrameView) -> Option<Talk> {
    match f.body {
        BodyView::CallStart { source_id, dmr_tg, target_gssi, priority } => Some(
            Talk { stream_id: f.stream_id, source_id, seq: 0, first: true },
        ),
        BodyView::Voice { seq, flags, pcm } => match talk {
            Some(t) => Some(Talk { seq: t.seq.wrapping_add(1), first: false, ..t }),
            None => None,
        },
        BodyView::SrcChange { source_id } => match talk {
            Some(t) => Some(Talk { source_id, ..t }),
            None => None,
        },
        BodyView::CallEnd => None,
        BodyView::Keepalive => talk,
    }
}

/// The state that a run of frames leads to.
pub open spec fn talk_after_all(talk: Option<Talk>, sent: Seq<FrameView>) -> Option<Talk>
    decreases sent.len(),
{
    if sent.len() == 0 {
        talk
    } else {
        talk_after(talk_after_all(talk, sent.drop_last()), sent.last())
    }
}

/// Whether every frame of a run is in order.
pub open spec fn all_in_order(talk: Option<Talk>, sent: Seq<FrameView>) -> bool
    decreases sent.len(),
{
    sent.len() > 0 ==> {
        &&& all_in_order(talk, sent.drop_last())
        &&& in_order(talk_after_all(talk, sent.drop_last()), sent.last())
    }
}

/// The call that a manager has in progress, as the receiving side sees it.
pub open spec fn talk_of(m: ManagerView) -> Option<Talk> {
    match m.session {
        Some(s) => Some(
            Talk {
                stream_id: s.stream_id,
                source_id: s.source_id,
                seq: s.seq,
                first: s.first_voice_pending,
            },
        ),
        None => None,
    }
}

/// Whether a step sends frames in order and leaves both sides agreed.
pub open spec fn agrees(before: ManagerView, step: ManagerStep) -> bool {
    &&& all_in_order(talk_of(before), step.sent)
    &&& talk_after_all(talk_of(before), step.sent) == talk_of(step.manager)
}

/// What is sent is a clean sequence of calls, whatever comes in: a call starts
/// only when none is in progress, voice and changes of talker belong to the call
/// in progress, voice frames are numbered one by one from 0 with the first one
/// marked, a change of talker is one, only the call in progress ends, and a
/// keepalive never bears the id of a call.
pub proof fn law_frames_form_calls(
    m: ManagerView,
    meta: MetaLine,
    pcm: Seq<i16>,
    target_gssi: u32,
    now_ms: u64,
    silence_timeout_ms: u64,
)
    requires
        m.valid(),
    ensures
        agrees(m, m.after_meta(meta, target_gssi, now_ms)),
        agrees(m, m.after_pcm(pcm, target_gssi, now_ms)),
        agrees(m, m.ticked(now_ms, silence_timeout_ms)),
        agrees(m, ManagerStep { manager: m, sent: seq![keepalive_frame()] }),
{
    let talk = talk_of(m);
    lemma_run(talk, m.after_meta(meta, target_gssi, now_ms).sent);
    lemma_run(talk, m.after_pcm(pcm, target_gssi, now_ms).sent);
    lemma_run(talk, m.ticked(now_ms, silence_timeout_ms).sent);
    lemma_run(talk, seq![keepalive_frame()]);
}

/// Runs of up to two frames, frame by frame.
proof fn lemma_run(talk: Option<Talk>, sent: Seq<FrameView>)
    requires
        sent.len() <= 2,
    ensures
        sent.len() == 0 ==> all_in_order(talk, sent) && talk_after_all(talk, sent) == talk,
        sent.len() == 1 ==> all_in_order(talk, sent) == in_order(talk, sent[0]) && talk_after_all(
            talk,
            sent,
        ) == talk_after(talk, sent[0]),
        sent.len() == 2 ==> all_in_order(talk, sent) == (in_order(talk, sent[0]) && in_order(
            talk_after(talk, sent[0]),
            sent[1],
        )) && talk_after_all(talk, sent) == talk_after(talk_after(talk, sent[0]), sent[1]),
{
    reveal_with_fuel(talk_after_all, 3);
    reveal_with_fuel(all_in_order, 3);
}

/// Every operation keeps a manager valid, and so do the actions of its recorder.
pub proof fn law_operations_keep_valid(
    m: ManagerView,
    meta: MetaLine,
    pcm: Seq<i16>,
    target_gssi: u32,
    now_ms: u64,
    silence_timeout_ms: u64,
    ok: bool,
    now: Seq<char>,
)
    requires
        m.valid(),
    ensures
        m.after_meta(meta, target_gssi, now_ms).manager.valid(),
        m.after_pcm(pcm, target_gssi, now_ms).manager.valid(),
        m.ticked(now_ms, silence_timeout_ms).manager.valid(),
        (ManagerView { recorder: m.recorder.next().recorder, ..m }).valid(),
        (ManagerView { recorder: m.recorder.reported(ok, now), ..m }).valid(),
{
    law_actions_keep_valid(m.recorder, ok, now);
}

/// Every transmission has a stream id of its own: a call gets an id other than 0
/// and other than that of the call before it.
pub proof fn law_stream_ids_are_fresh(
    m: ManagerView,
    source_id: u32,
    dmr_tg: u32,
    target_gssi: u32,
    now_ms: u64,
)
    requires
        m.valid(),
    ensures
        ({
            let after = m.started(source_id, dmr_tg, target_gssi, now_ms).manager;
            &&& after.session matches Some(s) && s.stream_id == m.next_stream_id
            &&& after.session->0.stream_id != 0
            &&& m.session matches Some(s) ==> after.session->0.stream_id != s.stream_id
            &&& after.next_stream_id != after.session->0.stream_id
        }),
{
}

/// Whether no frame changes the talker, and every call starts with `id`.
pub open spec fn one_speaker(sent: Seq<FrameView>, id: u32) -> bool {
    forall|i: int|
        0 <= i < sent.len() ==> {
            &&& !((#[trigger] sent[i]).body is SrcChange)
            &&& sent[i].body matches BodyView::CallStart {
                source_id,
                dmr_tg,
                target_gssi,
                priority,
            } ==> source_id == id
        }
}

/// With a fixed source id there is one speaker: every call starts with it, and no
/// change of talker is ever sent.
pub proof fn law_fixed_id_is_the_one_speaker(
    m: ManagerView,
    meta: MetaLine,
    pcm: Seq<i16>,
    target_gssi: u32,
    now_ms: u64,
    silence_timeout_ms: u64,
)
    requires
        m.fixed_source_id != 0,
    ensures
        one_speaker(m.after_meta(meta, target_gssi, now_ms).sent, m.fixed_source_id),
        one_speaker(m.after_pcm(pcm, target_gssi, now_ms).sent, m.fixed_source_id),
        one_speaker(m.ticked(now_ms, silence_timeout_ms).sent, m.fixed_source_id),
        m.after_meta(meta, target_gssi, now_ms).manager.fixed_source_id == m.fixed_source_id,
        m.after_pcm(pcm, target_gssi, now_ms).manager.fixed_source_id == m.fixed_source_id,
        m.ticked(now_ms, silence_timeout_ms).manager.fixed_source_id == m.fixed_source_id,
{
}

/// No PCM is lost: whatever the state, the last frame sent for a PCM frame is its
/// voice frame, with the very samples.
pub proof fn law_pcm_is_passed_on(m: ManagerView, pcm: Seq<i16>, target_gssi: u32, now_ms: u64)
    ensures
        ({
            let step = m.after_pcm(pcm, target_gssi, now_ms);
            &&& step.sent.len() > 0
            &&& step.sent.last().body matches BodyView::Voice { seq, flags, pcm: sent_pcm }
                && sent_pcm == pcm
            &&& step.manager.session is Some
        }),
{
}

/// The watchdog ends a call once no PCM has come in for the time given, counted
/// from the last PCM frame, and not before.
pub proof fn law_silence_ends_the_call(
    m: ManagerView,
    pcm: Seq<i16>,
    target_gssi: u32,
    then_ms: u64,
    now_ms: u64,
    silence_timeout_ms: u64,
)
    requires
        then_ms <= now_ms,
    ensures
        ({
            let fed = m.after_pcm(pcm, target_gssi, then_ms).manager;
            let step = fed.ticked(now_ms, silence_timeout_ms);
            if now_ms - then_ms >= silence_timeout_ms {
                step.manager.session is None && step.sent.len() == 1 && step.sent[0].body is CallEnd
            } else {
                step.manager == fed && step.sent.len() == 0
            }
        }),
{
}

/// A call ends once: after an end, another one sends nothing.
pub proof fn law_call_ends_once(m: ManagerView, target_gssi: u32, now_ms: u64)
    ensures
        ({
            let end = MetaLine { source: None, talkgroup: None, call_end: true };
            let once = m.after_meta(end, target_gssi, now_ms);
            &&& once.manager.session is None
            &&& once.sent.len() == (if m.session is Some {
                1nat
            } else {
                0nat
            })
            &&& once.manager.after_meta(end, target_gssi, now_ms).sent.len() == 0
        }),
{
}

/// A call that PCM started before any metadata takes over the source id that is
/// decoded later, within the same call.
pub proof fn law_provisional_call_is_upgraded(
    m: ManagerView,
    pcm: Seq<i16>,
    source_id: u32,
    talkgroup: Option<u32>,
    target_gssi: u32,
    then_ms: u64,
    now_ms: u64,
)
    requires
        m.session is None,
        m.fixed_source_id == 0,
        source_id != 0,
    ensures
        ({
            let fed = m.after_pcm(pcm, target_gssi, then_ms);
            let meta = MetaLine { source: Some(source_id), talkgroup, call_end: false };
            let step = fed.manager.after_meta(meta, target_gssi, now_ms);
            &&& fed.sent[0].body == (BodyView::CallStart {
                source_id: 0,
                dmr_tg: 0,
                target_gssi,
                priority: 0,
            })
            &&& step.sent == seq![
                FrameView {
                    stream_id: fed.sent[0].stream_id,
                    body: BodyView::SrcChange { source_id },
                },
            ]
            &&& step.manager.session matches Some(s) && s.source_id == source_id && s.stream_id
                == fed.sent[0].stream_id
        }),
{
}

/// Stream ids come round only after all of them have been used: from any id on,
/// `n` further calls lead to an id that lies `n` further on the ring of all ids
/// but 0.
pub proof fn law_stream_ids_come_round_late(id: u32, n: nat)
    requires
        id != 0,
    ensures
        nth_stream_after(id, n) == (id - 1 + n) % 0xFFFF_FFFF + 1,
    decreases n,
{
    if n > 0 {
        law_stream_ids_come_round_late(id, (n - 1) as nat);
        let a = id - 1 + n - 1;
        assert(a % 0xFFFF_FFFF == 0xFFFF_FFFE ==> (a + 1) % 0xFFFF_FFFF == 0);
        assert(a % 0xFFFF_FFFF != 0xFFFF_FFFE ==> (a + 1) % 0xFFFF_FFFF == a % 0xFFFF_FFFF + 1);
    }
}

/// The stream id that `n` further calls lead to.
pub open spec fn nth_stream_after(id: u32, n: nat) -> u32
    decreases n,
{
    if n == 0 {
        id
    } else {
        stream_after(nth_stream_after(id, (n - 1) as nat))
    }
}

/// A call that metadata starts has the full silence timeout from its start: until
/// then the watchdog leaves it alone, and then it ends it, once.
pub proof fn law_header_gives_time_for_the_audio(
    m: ManagerView,
    meta: MetaLine,
    target_gssi: u32,
    then_ms: u64,
    now_ms: u64,
    silence_timeout_ms: u64,
)
    requires
        m.session is None,
        meta.source is Some || meta.talkgroup is Some,
        !meta.call_end,
        then_ms <= now_ms,
    ensures
        ({
            let begun = m.after_meta(meta, target_gssi, then_ms);
            let step = begun.manager.ticked(now_ms, silence_timeout_ms);
            &&& begun.sent.len() == 1
            &&& if now_ms - then_ms < silence_timeout_ms {
                step.manager == begun.manager && step.sent.len() == 0
            } else {
                &&& step.sent == seq![
                    FrameView { stream_id: begun.sent[0].stream_id, body: BodyView::CallEnd },
                ]
                &&& step.manager.session is None
            }
        }),
{
}

/// Only audio renews the time that a call has: metadata in between does not, and a
/// call whose audio came at `then_ms` ends when the watchdog looks a full timeout
/// after that.
pub proof fn law_metadata_does_not_keep_a_call_up(
    m: ManagerView,
    pcm: Seq<i16>,
    meta: MetaLine,
    target_gssi: u32,
    then_ms: u64,
    meta_ms: u64,
    now_ms: u64,
    silence_timeout_ms: u64,
)
    requires
        then_ms <= now_ms,
        !meta.call_end,
    ensures
        ({
            let fed = m.after_pcm(pcm, target_gssi, then_ms).manager;
            let noted = fed.after_meta(meta, target_gssi, meta_ms).manager;
            let step = noted.ticked(now_ms, silence_timeout_ms);
            &&& noted.session is Some
            &&& step.manager.session is Some == (now_ms - then_ms < silence_timeout_ms)
            &&& step.sent.len() == (if now_ms - then_ms < silence_timeout_ms {
                0nat
            } else {
                1nat
            })
        }),
{
}

/// The start of a call says who talks, where and for which group: the ids that were
/// decoded, 0 for one that was not, and the group given; the priority is 0.
pub proof fn law_metadata_starts_a_call(
    m: ManagerView,
    meta: MetaLine,
    target_gssi: u32,
    now_ms: u64,
)
    requires
        m.session is None,
        meta.source is Some || meta.talkgroup is Some,
        !meta.call_end,
    ensures
        ({
            let step = m.after_meta(meta, target_gssi, now_ms);
            let source = match meta.source {
                Some(id) => id,
                None => 0,
            };
            let talkgroup = match meta.talkgroup {
                Some(id) => id,
                None => 0,
            };
            let shown = if m.fixed_source_id == 0 {
                source
            } else {
                m.fixed_source_id
            };
            &&& step.sent == seq![
                FrameView {
                    stream_id: m.next_stream_id,
                    body: BodyView::CallStart {
                        source_id: shown,
                        dmr_tg: talkgroup,
                        target_gssi,
                        priority: 0,
                    },
                },
            ]
            &&& step.manager.session matches Some(s) && s.stream_id == m.next_stream_id
                && s.source_id == shown && s.dmr_tg == talkgroup && s.seq == 0
                && s.first_voice_pending
            &&& step.manager.calls_started == m.calls_started.wrapping_add(1)
            &&& step.manager.fixed_source_id == m.fixed_source_id
        }),
{
}

/// Metadata within a call changes its talkgroup and, with no fixed id, its talker:
/// another source id is passed on, the same one is not. The call, its numbering
/// and its count stay.
pub proof fn law_metadata_within_a_call(
    m: ManagerView,
    meta: MetaLine,
    target_gssi: u32,
    now_ms: u64,
)
    requires
        m.session is Some,
        !meta.call_end,
    ensures
        ({
            let s = m.session->0;
            let step = m.after_meta(meta, target_gssi, now_ms);
            let changed = m.fixed_source_id == 0 && (meta.source matches Some(id) && id
                != s.source_id);
            &&& step.manager.session matches Some(t) && t.stream_id == s.stream_id && t.seq == s.seq
                && t.first_voice_pending == s.first_voice_pending && t.last_pcm_ms == s.last_pcm_ms
                && t.source_id == (if changed {
                meta.source->0
            } else {
                s.source_id
            }) && t.dmr_tg == (match meta.talkgroup {
                Some(tg) => tg,
                None => s.dmr_tg,
            })
            &&& changed ==> step.sent == seq![
                FrameView {
                    stream_id: s.stream_id,
                    body: BodyView::SrcChange { source_id: meta.source->0 },
                },
            ]
            &&& !changed ==> step.sent.len() == 0
            &&& step.manager.calls_started == m.calls_started
            &&& step.manager.next_stream_id == m.next_stream_id
        }),
{
}

/// A line without ids that ends no call changes nothing.
pub proof fn law_empty_metadata_is_ignored(m: ManagerView, target_gssi: u32, now_ms: u64)
    ensures
        m.after_meta(
            MetaLine { source: None, talkgroup: None, call_end: false },
            target_gssi,
            now_ms,
        ) == (ManagerStep { manager: m, sent: seq![] }),
{
}

/// A line that ends the call ends it, whatever ids stand in it too.
pub proof fn law_end_line_ends_the_call(
    m: ManagerView,
    meta: MetaLine,
    target_gssi: u32,
    now_ms: u64,
)
    requires
        meta.call_end,
    ensures
        ({
            let step = m.after_meta(meta, target_gssi, now_ms);
            &&& step.manager.session is None
            &&& m.session matches Some(s) ==> step.sent == seq![
                FrameView { stream_id: s.stream_id, body: BodyView::CallEnd },
            ]
            &&& m.session is None ==> step.sent.len() == 0
            &&& step.manager.next_stream_id == m.next_stream_id
            &&& step.manager.calls_started == m.calls_started
        }),
{
}

/// Audio is sent as voice of the call in progress, under the next number; without
/// one a call starts first, with no ids.
pub proof fn law_audio_becomes_voice(m: ManagerView, pcm: Seq<i16>, target_gssi: u32, now_ms: u64)
    ensures
        ({
            let step = m.after_pcm(pcm, target_gssi, now_ms);
            match m.session {
                Some(s) => {
                    &&& step.sent == seq![
                        FrameView {
                            stream_id: s.stream_id,
                            body: BodyView::Voice {
                                seq: s.seq,
                                flags: if s.first_voice_pending {
                                    1
                                } else {
                                    0
                                },
                                pcm,
                            },
                        },
                    ]
                    &&& step.manager.session matches Some(t) && t.seq == s.seq.wrapping_add(1)
                        && !t.first_voice_pending && t.source_id == s.source_id && t.dmr_tg
                        == s.dmr_tg && t.stream_id == s.stream_id
                    &&& step.manager.calls_started == m.calls_started
                    &&& step.manager.next_stream_id == m.next_stream_id
                },
                None => {
                    &&& step.sent == seq![
                        FrameView {
                            stream_id: m.next_stream_id,
                            body: BodyView::CallStart {
                                source_id: m.fixed_source_id,
                                dmr_tg: 0,
                                target_gssi,
                                priority: 0,
                            },
                        },
                        FrameView {
                            stream_id: m.next_stream_id,
                            body: BodyView::Voice { seq: 0, flags: 1, pcm },
                        },
                    ]
                    &&& step.manager.session matches Some(t) && t.seq == 1
                        && !t.first_voice_pending && t.source_id == m.fixed_source_id && t.dmr_tg
                        == 0 && t.stream_id == m.next_stream_id
                    &&& step.manager.calls_started == m.calls_started.wrapping_add(1)
                },
            }
        }),
{
    let step = m.after_pcm(pcm, target_gssi, now_ms);
    if m.session is None {
        assert(step.sent.len() == 2);
        assert(step.sent =~= seq![step.sent[0], step.sent[1]]);
    }
}

/// What the recorder is asked for follows the calls: a call that starts begins a
/// file under the decoded ids (whatever id is shown), decoded ids and audio go to
/// it in order, and the end of a call ends it.
pub proof fn law_recording_follows_the_call(
    m: ManagerView,
    meta: MetaLine,
    pcm: Seq<i16>,
    target_gssi: u32,
    now_ms: u64,
    silence_timeout_ms: u64,
)
    requires
        m.recorder.enabled,
    ensures
        ({
            let before = m.recorder.pending;
            let noted = m.after_meta(meta, target_gssi, now_ms).manager.recorder.pending;
            let note = OpView::Note { seen_src: meta.source, seen_tg: meta.talkgroup };
            let source = match meta.source {
                Some(id) => id,
                None => 0,
            };
            let talkgroup = match meta.talkgroup {
                Some(id) => id,
                None => 0,
            };
            if meta.call_end {
                noted == before.push(OpView::Finish)
            } else if meta.source is None && meta.talkgroup is None {
                noted == before
            } else if m.session is Some {
                noted == before.push(note)
            } else {
                noted == before + seq![
                    note,
                    OpView::Finish,
                    OpView::Open { src: source, tg: talkgroup },
                ]
            }
        }),
        ({
            let before = m.recorder.pending;
            let fed = m.after_pcm(pcm, target_gssi, now_ms).manager.recorder.pending;
            if m.session is Some {
                fed == before.push(OpView::Append { pcm })
            } else {
                fed == before + seq![
                    OpView::Finish,
                    OpView::Open { src: 0, tg: 0 },
                    OpView::Append { pcm },
                ]
            }
        }),
        ({
            let after = m.ticked(now_ms, silence_timeout_ms);
            after.manager.recorder.pending == (if after.sent.len() > 0 {
                m.recorder.pending.push(OpView::Finish)
            } else {
                m.recorder.pending
            })
        }),
{
    let before = m.recorder.pending;
    let noted = m.after_meta(meta, target_gssi, now_ms).manager.recorder.pending;
    let note = OpView::Note { seen_src: meta.source, seen_tg: meta.talkgroup };
    if !meta.call_end && m.session is None && !(meta.source is None && meta.talkgroup is None) {
        let source = match meta.source {
            Some(id) => id,
            None => 0,
        };
        let talkgroup = match meta.talkgroup {
            Some(id) => id,
            None => 0,
        };
        assert(noted =~= before + seq![
            note,
            OpView::Finish,
            OpView::Open { src: source, tg: talkgroup },
        ]);
    }
    let fed = m.after_pcm(pcm, target_gssi, now_ms).manager.recorder.pending;
    if m.session is None {
        assert(fed =~= before + seq![
            OpView::Finish,
            OpView::Open { src: 0, tg: 0 },
            OpView::Append { pcm },
        ]);
    }
}

/// Number of calls that start in a run of frames.
pub open spec fn starts_in(sent: Seq<FrameView>) -> nat
    decreases sent.len(),
{
    if sent.len() == 0 {
        0
    } else if sent.last().body is CallStart {
        starts_in(sent.drop_last()) + 1
    } else {
        starts_in(sent.drop_last())
    }
}

/// The count of calls is the number of starts that were sent, modulo 2^64.
pub proof fn law_count_is_the_number_of_starts(
    m: ManagerView,
    meta: MetaLine,
    pcm: Seq<i16>,
    target_gssi: u32,
    now_ms: u64,
    silence_timeout_ms: u64,
)
    ensures
        ({
            let a = m.after_meta(meta, target_gssi, now_ms);
            let b = m.after_pcm(pcm, target_gssi, now_ms);
            let c = m.ticked(now_ms, silence_timeout_ms);
            &&& a.manager.calls_started == (m.calls_started + starts_in(a.sent))
                % 0x1_0000_0000_0000_0000
            &&& b.manager.calls_started == (m.calls_started + starts_in(b.sent))
                % 0x1_0000_0000_0000_0000
            &&& c.manager.calls_started == (m.calls_started + starts_in(c.sent))
                % 0x1_0000_0000_0000_0000
        }),
{
    reveal_with_fuel(starts_in, 3);
    let a = m.after_meta(meta, target_gssi, now_ms);
    let b = m.after_pcm(pcm, target_gssi, now_ms);
    let c = m.ticked(now_ms, silence_timeout_ms);
    assert(a.sent.len() <= 1 && b.sent.len() <= 2 && c.sent.len() <= 1);
}

/// A keepalive says nothing of any call.
pub proof fn law_keepalive_is_of_no_stream()
    ensures
        keepalive_frame() == (FrameView { stream_id: 0, body: BodyView::Keepalive }),
{
}

/// A keepalive is due at one tick of any twenty in a row.
pub proof fn law_keepalive_every_twenty_ticks(ticks: u64, k: int)
    requires
        ticks + 20 <= u64::MAX,
        0 < k < 20,
    ensures
        keepalive_due(ticks) ==> keepalive_due((ticks + 20) as u64) && !keepalive_due(
            (ticks + k) as u64,
        ),
        keepalive_due(0),
{
}

} // verus!
