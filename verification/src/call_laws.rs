//! What the injection entity does for a call, from its start to its end, stated
//! over the calls and streams themselves.
use crate::entity::{
    call_index, holds_call, lemma_call_found, lemma_filter_keeps_names, lemma_stream_found, maps_stream, stream_index,
    stream_of, uuid_of, CallView, CoreView, EncodeJob, Step,
};
use crate::entity_laws::{
    after_ticks, law_ending_call_drains, law_restart_ends_the_old_call, law_started_call_takes_voice,
    law_steps_keep_linked, law_tick_of_one_call,
};
use crate::sap::{CallControl, InnerView, MsgView, Sap, TetraEntity};
use vstd::prelude::*;

verus! {

/// Whether stream `stream_id` feeds call `i`.
pub open spec fn feeds(core: CoreView, stream_id: u32, i: int) -> bool {
    0 <= i < core.calls.len() && core.streams.contains((stream_id, core.calls[i].uuid))
}

/// Whether a call of this id is active.
pub open spec fn is_active(core: CoreView, uuid: u128) -> bool {
    exists|k: int| 0 <= k < core.calls.len() && (#[trigger] core.calls[k]).uuid == uuid
}

/// Whether a call of this id is active and ends.
pub open spec fn is_ending(core: CoreView, uuid: u128) -> bool {
    exists|k: int|
        0 <= k < core.calls.len() && (#[trigger] core.calls[k]).uuid == uuid
            && core.calls[k].ending
}

/// Whether a stream has an entry.
pub open spec fn is_known(core: CoreView, stream_id: u32) -> bool {
    exists|s: int| 0 <= s < core.streams.len() && (#[trigger] core.streams[s]).0 == stream_id
}

/// The primitive with which CMCE is asked for a call.
pub open spec fn call_request(
    src: TetraEntity,
    brew_uuid: u128,
    source_issi: u32,
    dest_gssi: u32,
    priority: u8,
) -> MsgView {
    MsgView {
        sap: Sap::Control,
        src,
        dest: TetraEntity::Cmce,
        msg: InnerView::Control(
            CallControl::NetworkCallStart { brew_uuid, source_issi, dest_gssi, priority },
        ),
    }
}

/// The primitive with which CMCE is told of the end of a call.
pub open spec fn call_release(src: TetraEntity, brew_uuid: u128) -> MsgView {
    MsgView {
        sap: Sap::Control,
        src,
        dest: TetraEntity::Cmce,
        msg: InnerView::Control(CallControl::NetworkCallEnd { brew_uuid }),
    }
}

/// The primitive with which UMAC is given a voice block.
pub open spec fn voice_block(src: TetraEntity, ts: u8, data: Seq<u8>) -> MsgView {
    MsgView { sap: Sap::TmdSap, src, dest: TetraEntity::Umac, msg: InnerView::Voice { ts, data } }
}

/// A stream that feeds a call leads to it.
proof fn lemma_fed(core: CoreView, stream_id: u32, i: int)
    requires
        core.valid(),
        feeds(core, stream_id, i),
    ensures
        uuid_of(core.streams, stream_id) == Some(core.calls[i].uuid),
        call_index(core.calls, core.calls[i].uuid) == Some(i),
        core.fed_call(stream_id) == Some(i),
{
    let e = (stream_id, core.calls[i].uuid);
    let s = choose|s: int| 0 <= s < core.streams.len() && core.streams[s] == e;
    lemma_stream_found(core.streams, stream_id, s);
    let t = stream_index(core.streams, stream_id)->0;
    assert(maps_stream(core.streams, stream_id, t));
    assert(core.streams[s].0 == core.streams[t].0);
    assert(s == t);
    lemma_place(core, i);
}

/// A call is found in its place.
proof fn lemma_place(core: CoreView, i: int)
    requires
        core.valid(),
        0 <= i < core.calls.len(),
    ensures
        call_index(core.calls, core.calls[i].uuid) == Some(i),
{
    let id = core.calls[i].uuid;
    lemma_call_found(core.calls, id, i);
    let k = call_index(core.calls, id)->0;
    assert(holds_call(core.calls, id, k));
    assert(core.calls[k].uuid == core.calls[i].uuid);
    assert(k == i);
}

/// A call of an id that is not active is not found, and the other way round.
proof fn lemma_active(core: CoreView, uuid: u128)
    ensures
        call_index(core.calls, uuid) is Some == is_active(core, uuid),
{
    if is_active(core, uuid) {
        let k = choose|k: int| 0 <= k < core.calls.len() && (#[trigger] core.calls[k]).uuid == uuid;
        lemma_call_found(core.calls, uuid, k);
    }
    if call_index(core.calls, uuid) is Some {
        let k = call_index(core.calls, uuid)->0;
        assert(holds_call(core.calls, uuid, k));
    }
}

proof fn lemma_known(core: CoreView, stream_id: u32)
    ensures
        uuid_of(core.streams, stream_id) is Some == is_known(core, stream_id),
{
    if is_known(core, stream_id) {
        let s = choose|s: int|
            0 <= s < core.streams.len() && (#[trigger] core.streams[s]).0 == stream_id;
        lemma_stream_found(core.streams, stream_id, s);
    }
    if uuid_of(core.streams, stream_id) is Some {
        let s = stream_index(core.streams, stream_id)->0;
        assert(maps_stream(core.streams, stream_id, s));
    }
}

/// A voice frame restarts the idle clock: from the time at which it came in, the
/// call goes on for the idle timeout, and ends at the first tick after it.
pub proof fn law_voice_restarts_the_idle_clock(
    core: CoreView,
    stream_id: u32,
    i: int,
    pcm: Seq<i16>,
    then: u128,
    now: u128,
)
    requires
        core.linked(),
        core.dltime.f != 18,
        feeds(core, stream_id, i),
        pcm.len() == 240,
        core.calls[i].ts is Some,
        !core.calls[i].ending,
    ensures
        ({
            let uuid = core.calls[i].uuid;
            let after = core.heard(stream_id, pcm, then).played(now).core;
            if now - then <= core.idle_timeout_ms * 1_000_000 {
                is_active(after, uuid) && !is_ending(after, uuid)
            } else {
                is_active(after, uuid) ==> is_ending(after, uuid)
            }
        }),
{
    lemma_fed(core, stream_id, i);
    let heard = core.heard(stream_id, pcm, then);
    law_steps_keep_linked(
        core,
        true,
        None,
        stream_id,
        0,
        0,
        0,
        then,
        pcm,
        seq![],
        0,
        InnerView::Other,
    );
    assert(heard.calls[i].uuid == core.calls[i].uuid);
    lemma_after_tick(heard, i, now);
}

/// What is left of a call after a tick, seen by its id.
proof fn lemma_after_tick(core: CoreView, i: int, now: u128)
    requires
        core.linked(),
        core.dltime.f != 18,
        0 <= i < core.calls.len(),
    ensures
        ({
            let call = core.calls[i];
            let p = call.played(core.dltime.t, core.idle_timeout_ms, now);
            let after = core.played(now).core;
            &&& after.linked()
            &&& is_active(after, call.uuid) == !p.done
            &&& is_ending(after, call.uuid) == (!p.done && p.call.ending)
            &&& !p.done ==> after.calls.contains(p.call)
        }),
{
    let call = core.calls[i];
    let p = call.played(core.dltime.t, core.idle_timeout_ms, now);
    let after = core.played(now).core;
    law_tick_of_one_call(core, i, now);
    law_steps_keep_linked(
        core,
        true,
        None,
        0,
        0,
        0,
        0,
        now,
        seq![],
        seq![],
        0,
        InnerView::Other,
    );
    lemma_active(after, call.uuid);
    if !p.done {
        let k = call_index(after.calls, call.uuid)->0;
        assert(after.calls[k] == p.call);
        assert(holds_call(after.calls, call.uuid, k));
        assert forall|j: int|
            0 <= j < after.calls.len() && (#[trigger] after.calls[j]).uuid
                == call.uuid implies j == k by {}
    }
}

/// The idle clock starts with the call: one that gets a timeslot and hears nothing
/// goes on for the idle timeout from its start, and ends at the first tick after
/// it.
pub proof fn law_idle_clock_starts_with_the_call(
    core: CoreView,
    uuid: u128,
    stream_id: u32,
    source_id: u32,
    target_gssi: u32,
    priority: u8,
    then: u128,
    ts: u8,
    now: u128,
)
    requires
        core.linked(),
        core.dltime.f != 18,
        !is_active(core, uuid),
    ensures
        ({
            let started = core.started(
                uuid,
                stream_id,
                source_id,
                target_gssi,
                priority,
                then,
            ).core;
            let after = started.allocated(uuid, ts).core.played(now).core;
            if now - then <= core.idle_timeout_ms * 1_000_000 {
                is_active(after, uuid) && !is_ending(after, uuid)
            } else {
                is_active(after, uuid) ==> is_ending(after, uuid)
            }
        }),
{
    lemma_active(core, uuid);
    let started = core.started(uuid, stream_id, source_id, target_gssi, priority, then).core;
    let msg = InnerView::Control(
        CallControl::NetworkCallReady { brew_uuid: uuid, call_id: 0, ts, usage: 0 },
    );
    law_started_call_takes_voice(
        core,
        uuid,
        stream_id,
        source_id,
        target_gssi,
        priority,
        then,
        Seq::new(240, |k: int| 0i16),
    );
    law_steps_keep_linked(
        core,
        true,
        Some(uuid),
        stream_id,
        source_id,
        target_gssi,
        priority,
        then,
        seq![],
        seq![],
        0,
        msg,
    );
    let i = started.fed_call(stream_id)->0;
    lemma_place(started, i);
    law_steps_keep_linked(
        started,
        true,
        None,
        stream_id,
        0,
        0,
        0,
        then,
        seq![],
        seq![],
        0,
        msg,
    );
    let ready = started.allocated(uuid, ts).core;
    assert(started.received(msg).core == ready);
    assert(ready.calls[i].uuid == uuid);
    lemma_after_tick(ready, i, now);
}

/// A call for which no timeslot comes is given up five seconds after its start,
/// and CMCE is told; before that it stays.
pub proof fn law_unanswered_call_is_given_up(
    core: CoreView,
    uuid: u128,
    stream_id: u32,
    source_id: u32,
    target_gssi: u32,
    priority: u8,
    then: u128,
    now: u128,
)
    requires
        core.linked(),
        core.dltime.f != 18,
        !is_active(core, uuid),
    ensures
        ({
            let started = core.started(
                uuid,
                stream_id,
                source_id,
                target_gssi,
                priority,
                then,
            ).core;
            let step = started.played(now);
            &&& is_active(step.core, uuid) == (now - then <= 5_000_000_000)
            &&& now - then > 5_000_000_000 ==> step.sent.contains(call_release(core.identity, uuid))
            &&& now - then <= 5_000_000_000 ==> !is_ending(step.core, uuid)
        }),
{
    lemma_active(core, uuid);
    let started = core.started(uuid, stream_id, source_id, target_gssi, priority, then).core;
    law_started_call_takes_voice(
        core,
        uuid,
        stream_id,
        source_id,
        target_gssi,
        priority,
        then,
        Seq::new(240, |k: int| 0i16),
    );
    law_steps_keep_linked(
        core,
        true,
        Some(uuid),
        stream_id,
        source_id,
        target_gssi,
        priority,
        then,
        seq![],
        seq![],
        0,
        InnerView::Other,
    );
    let i = started.fed_call(stream_id)->0;
    lemma_after_tick(started, i, now);
    law_tick_of_one_call(started, i, now);
}

/// A transmission on a stream that feeds no call leads to one call: CMCE is asked
/// for it, for the group, the priority and the talker given, and the call waits for
/// a timeslot with an empty buffer. All other calls stay as they are.
pub proof fn law_start_asks_for_one_call(
    core: CoreView,
    uuid: u128,
    stream_id: u32,
    source_id: u32,
    target_gssi: u32,
    priority: u8,
    now: u128,
)
    requires
        core.linked(),
        !is_active(core, uuid),
        !is_known(core, stream_id),
        core.source_issi_base + 999 <= u32::MAX,
    ensures
        ({
            let step = core.started(uuid, stream_id, source_id, target_gssi, priority, now);
            let issi = (core.source_issi_base + source_id % 1000) as u32;
            let call = step.core.calls.last();
            &&& step.sent == seq![call_request(core.identity, uuid, issi, target_gssi, priority)]
            &&& step.core.calls == core.calls.push(call)
            &&& step.core.streams == core.streams.push((stream_id, uuid))
            &&& step.core.decoded_calls == core.decoded_calls.wrapping_add(1)
            &&& call.uuid == uuid
            &&& call.source_issi == issi
            &&& call.dest_gssi == target_gssi
            &&& call.priority == priority
            &&& call.ts is None
            &&& !call.ending
            &&& call.pending.len() == 0
            &&& call.jitter.frames.len() == 0
            &&& !call.jitter.started
            &&& call.jitter.target == 4 + (if core.jitter_latency < 10 {
                core.jitter_latency as int
            } else {
                10
            })
        }),
{
    lemma_active(core, uuid);
    lemma_known(core, stream_id);
    let step = core.started(uuid, stream_id, source_id, target_gssi, priority, now);
    let issi = (core.source_issi_base + source_id % 1000) as u32;
    assert(step.sent =~= seq![call_request(core.identity, uuid, issi, target_gssi, priority)]);
    assert(step.core.calls =~= core.calls.push(step.core.calls.last()));
}

/// A stream that starts again has its call ended and a new one asked for, in this
/// order; the old call is gone, all others stay as they are.
pub proof fn law_restart_replaces_the_call(
    core: CoreView,
    uuid: u128,
    stream_id: u32,
    i: int,
    source_id: u32,
    target_gssi: u32,
    priority: u8,
    now: u128,
)
    requires
        core.linked(),
        !is_active(core, uuid),
        feeds(core, stream_id, i),
        core.source_issi_base + 999 <= u32::MAX,
    ensures
        ({
            let step = core.started(uuid, stream_id, source_id, target_gssi, priority, now);
            let issi = (core.source_issi_base + source_id % 1000) as u32;
            &&& step.sent == seq![
                call_release(core.identity, core.calls[i].uuid),
                call_request(core.identity, uuid, issi, target_gssi, priority),
            ]
            &&& step.core.calls.drop_last() == core.calls.remove(i)
            &&& step.core.calls.last().uuid == uuid
            &&& !step.core.calls.last().ending
            &&& step.core.calls.last().ts is None
            &&& step.core.streams.contains((stream_id, uuid))
            &&& !step.core.streams.contains((stream_id, core.calls[i].uuid))
        }),
{
    lemma_active(core, uuid);
    lemma_fed(core, stream_id, i);
    law_restart_ends_the_old_call(
        core,
        uuid,
        stream_id,
        source_id,
        target_gssi,
        priority,
        now,
    );
    let step = core.started(uuid, stream_id, source_id, target_gssi, priority, now);
    let before = core.superseded(stream_id).core;
    let old_uuid = core.calls[i].uuid;
    assert(before.calls == core.calls.remove(i));
    if call_index(before.calls, uuid) is Some {
        let k = call_index(before.calls, uuid)->0;
        assert(holds_call(before.calls, uuid, k));
        lemma_call_found(core.calls, uuid, if k < i { k } else { k + 1 });
    }
    assert(step.core.calls.drop_last() =~= core.calls.remove(i));
    assert(step.core.streams.last() == (stream_id, uuid));
    if step.core.streams.contains((stream_id, old_uuid)) {
        let k = choose|k: int|
            0 <= k < step.core.streams.len() && step.core.streams[k] == (stream_id, old_uuid);
        let s = stream_index(core.streams, stream_id)->0;
        assert(maps_stream(core.streams, stream_id, s));
        assert(uuid != old_uuid);
        assert(k < before.streams.len());
        assert(core.streams[if k < s { k } else { k + 1 }] == (stream_id, old_uuid));
        assert(core.streams[s].0 == stream_id);
        assert(false);
    }
    assert(step.sent =~= seq![
        call_release(core.identity, old_uuid),
        call_request(
            core.identity,
            uuid,
            (core.source_issi_base + source_id % 1000) as u32,
            target_gssi,
            priority,
        ),
    ]);
}

/// Without an encoder no call comes about: the call that the stream feeds ends all
/// the same, and where there is none nothing happens.
pub proof fn law_no_encoder_no_call(
    core: CoreView,
    stream_id: u32,
    i: int,
    source_id: u32,
    target_gssi: u32,
    priority: u8,
    now: u128,
)
    requires
        core.linked(),
    ensures
        ({
            let step = core.answered(true, None, stream_id, source_id, target_gssi, priority, now);
            &&& feeds(core, stream_id, i) ==> step.sent == seq![
                call_release(core.identity, core.calls[i].uuid),
            ] && step.core.calls == core.calls.remove(i)
            &&& !is_known(core, stream_id) ==> step == (Step { core, sent: seq![] })
        }),
{
    lemma_known(core, stream_id);
    if feeds(core, stream_id, i) {
        lemma_fed(core, stream_id, i);
    }
}

/// CMCE's answer gives the call its timeslot and changes nothing else; an answer
/// for a call that is not active has that call released.
pub proof fn law_answer_gives_the_timeslot(core: CoreView, uuid: u128, i: int, msg: InnerView)
    requires
        core.valid(),
        msg matches InnerView::Control(
            CallControl::NetworkCallReady { brew_uuid, call_id, ts, usage },
        ) && brew_uuid == uuid,
    ensures
        ({
            let ts = msg->Control_0->NetworkCallReady_ts;
            let step = core.received(msg);
            &&& 0 <= i < core.calls.len() && core.calls[i].uuid == uuid ==> step.sent.len() == 0
                && step.core == (CoreView {
                calls: core.calls.update(i, CallView { ts: Some(ts), ..core.calls[i] }),
                ..core
            })
            &&& !is_active(core, uuid) ==> step.core == core && step.sent == seq![
                call_release(core.identity, uuid),
            ]
        }),
{
    lemma_active(core, uuid);
    if 0 <= i < core.calls.len() && core.calls[i].uuid == uuid {
        lemma_place(core, i);
    }
}

/// An end from CMCE takes the call and its stream away, with nothing sent; all
/// other calls and streams stay as they are. An end of a call that is not active,
/// and anything else that comes in, does nothing.
pub proof fn law_end_from_the_stack(core: CoreView, uuid: u128, i: int, msg: InnerView)
    requires
        core.linked(),
    ensures
        ({
            let end = InnerView::Control(CallControl::NetworkCallEnd { brew_uuid: uuid });
            let step = core.received(end);
            &&& step.sent.len() == 0
            &&& 0 <= i < core.calls.len() && core.calls[i].uuid == uuid ==> step.core.calls
                == core.calls.remove(i)
            &&& forall|e: (u32, u128)|
                0 <= i < core.calls.len() && core.calls[i].uuid == uuid ==> (
                #[trigger] step.core.streams.contains(e) == (core.streams.contains(e) && e.1
                    != uuid))
            &&& !is_active(core, uuid) ==> step.core == core
        }),
        !(msg matches InnerView::Control(CallControl::NetworkCallReady { .. })) && !(
        msg matches InnerView::Control(CallControl::NetworkCallEnd { .. })) ==> core.received(msg)
            == (Step { core, sent: seq![] }),
{
    lemma_active(core, uuid);
    if 0 <= i < core.calls.len() && core.calls[i].uuid == uuid {
        lemma_place(core, i);
        let keep = crate::entity::feeds_other(uuid);
        let kept = core.streams.filter(keep);
        lemma_filter_keeps_names(core.streams, keep);
        assert forall|e: (u32, u128)| #[trigger] kept.contains(e) == (core.streams.contains(e)
            && e.1 != uuid) by {
            if kept.contains(e) {
                let k = choose|k: int| 0 <= k < kept.len() && kept[k] == e;
                assert(keep(kept[k]));
                let j = choose|j: int|
                    0 <= j < core.streams.len() && #[trigger] core.streams[j] == kept[k];
                assert(core.streams[j] == e);
            }
            if core.streams.contains(e) && e.1 != uuid {
                let k = choose|k: int| 0 <= k < core.streams.len() && core.streams[k] == e;
                core.streams.lemma_filter_contains(keep, k);
            }
        }
    }
}

/// A voice frame of 240 samples is taken for the call that its stream feeds, also
/// while the call ends. The first of two waits, and the second makes a block of
/// both, in order. A frame of any other size is dropped.
pub proof fn law_voice_is_gathered(
    core: CoreView,
    stream_id: u32,
    i: int,
    pcm: Seq<i16>,
    now: u128,
    job: EncodeJob,
)
    requires
        core.valid(),
        feeds(core, stream_id, i),
    ensures
        pcm.len() != 240 ==> core.heard(stream_id, pcm, now) == core && !core.completes_block(
            stream_id,
            pcm,
        ),
        pcm.len() == 240 && core.calls[i].pending.len() == 0 ==> !core.completes_block(
            stream_id,
            pcm,
        ) && core.heard(stream_id, pcm, now) == (CoreView {
            calls: core.calls.update(
                i,
                CallView { pending: pcm, last_voice_at: now, ..core.calls[i] },
            ),
            ..core
        }),
        pcm.len() == 240 && core.calls[i].pending.len() > 0 ==> core.completes_block(
            stream_id,
            pcm,
        ) && core.heard(stream_id, pcm, now) == (CoreView {
            calls: core.calls.update(
                i,
                CallView { pending: seq![], last_voice_at: now, ..core.calls[i] },
            ),
            ..core
        }),
        pcm.len() == 240 && core.calls[i].pending.len() > 0 && core.is_job(job, stream_id, pcm)
            ==> job.uuid == core.calls[i].uuid && job.pcm_a@ == core.calls[i].pending && job.pcm_b@
            == pcm,
{
    lemma_fed(core, stream_id, i);
    let pending = core.calls[i].pending;
    if pcm.len() == 240 {
        assert(core.calls[i].valid());
        if pending.len() == 0 {
            assert(pending + pcm =~= pcm);
        } else {
            let all = pending + pcm;
            assert(all.skip(480) =~= seq![]);
            assert(all.subrange(0, 240) =~= pending);
            assert(all.subrange(240, 480) =~= pcm);
        }
    }
}

/// Coded speech goes behind the blocks that wait for its call, and nowhere else;
/// for a call that is not active it is dropped.
pub proof fn law_coded_speech_waits_in_order(core: CoreView, uuid: u128, i: int, block: Seq<u8>)
    requires
        core.valid(),
    ensures
        0 <= i < core.calls.len() && core.calls[i].uuid == uuid ==> ({
            let after = core.coded(uuid, block);
            let frames = core.calls[i].jitter.frames;
            &&& after.streams == core.streams
            &&& after.calls.len() == core.calls.len()
            &&& forall|j: int|
                0 <= j < core.calls.len() && j != i ==> #[trigger] after.calls[j] == core.calls[j]
            &&& after.calls[i] == (CallView { jitter: after.calls[i].jitter, ..core.calls[i] })
            &&& after.calls[i].jitter.started == core.calls[i].jitter.started
            &&& frames.len() < 24 ==> after.calls[i].jitter.frames == frames.push(block)
            &&& frames.len() == 24 ==> after.calls[i].jitter.frames == frames.drop_first().push(
                block,
            )
        }),
        !is_active(core, uuid) ==> core.coded(uuid, block) == core,
{
    lemma_active(core, uuid);
    if 0 <= i < core.calls.len() && core.calls[i].uuid == uuid {
        lemma_place(core, i);
        crate::jitter::law_first_in_first_out(core.calls[i].jitter, block);
        assert(core.calls[i].valid());
    }
}

/// Another talker on the stream of a call, that is one who stands for another ISSI,
/// has the call asked for again with that ISSI, and all speech of the old talker
/// dropped. The same talker again changes nothing.
pub proof fn law_another_talker_takes_over(
    core: CoreView,
    stream_id: u32,
    i: int,
    source_id: u32,
)
    requires
        core.valid(),
        feeds(core, stream_id, i),
        core.source_issi_base + 999 <= u32::MAX,
    ensures
        ({
            let step = core.talker_changed(stream_id, source_id);
            let call = core.calls[i];
            let issi = (core.source_issi_base + source_id % 1000) as u32;
            let after = step.core.calls[i];
            if issi == call.source_issi {
                step == (Step { core, sent: seq![] })
            } else {
                &&& step.sent == seq![
                    call_request(core.identity, call.uuid, issi, call.dest_gssi, call.priority),
                ]
                &&& step.core == (CoreView { calls: core.calls.update(i, after), ..core })
                &&& after == (CallView {
                    source_issi: issi,
                    pending: seq![],
                    jitter: after.jitter,
                    ..call
                })
                &&& after.jitter.frames.len() == 0
                &&& !after.jitter.started
                &&& after.jitter.target == 4 + call.jitter.latency
                &&& after.jitter.boost == 0
            }
        }),
{
    lemma_fed(core, stream_id, i);
    let step = core.talker_changed(stream_id, source_id);
    let issi = (core.source_issi_base + source_id % 1000) as u32;
    if issi != core.calls[i].source_issi {
        assert(step.core.calls =~= core.calls.update(i, step.core.calls[i]));
    }
}

/// The end of a transmission sends nothing by itself: the call that its stream
/// feeds is from then on ending, and all else stays as it is.
pub proof fn law_end_of_transmission_marks_the_call(core: CoreView, stream_id: u32, i: int)
    requires
        core.valid(),
        feeds(core, stream_id, i),
    ensures
        core.ended(stream_id) == (CoreView {
            calls: core.calls.update(i, CallView { ending: true, ..core.calls[i] }),
            ..core
        }),
{
    lemma_fed(core, stream_id, i);
}

/// After the end of a transmission every block that waits is played, in order, one
/// per tick of the call's timeslot, and the tick after the last one releases the
/// call.
pub proof fn law_end_of_transmission_plays_the_rest(
    core: CoreView,
    stream_id: u32,
    i: int,
    nows: Seq<u128>,
    now: u128,
)
    requires
        core.linked(),
        core.dltime.f != 18,
        feeds(core, stream_id, i),
        core.calls[i].ts == Some(core.dltime.t),
        nows.len() <= core.calls[i].jitter.frames.len(),
    ensures
        ({
            let call = core.calls[i];
            let frames = call.jitter.frames;
            let step = after_ticks(core.ended(stream_id), nows).played(now);
            &&& nows.len() < frames.len() ==> step.sent.contains(
                voice_block(core.identity, core.dltime.t, frames[nows.len() as int]),
            ) && is_active(step.core, call.uuid)
            &&& nows.len() == frames.len() ==> step.sent.contains(
                call_release(core.identity, call.uuid),
            ) && !is_active(step.core, call.uuid)
        }),
{
    law_end_of_transmission_marks_the_call(core, stream_id, i);
    law_steps_keep_linked(
        core,
        true,
        None,
        stream_id,
        0,
        0,
        0,
        now,
        seq![],
        seq![],
        0,
        InnerView::Other,
    );
    let ended = core.ended(stream_id);
    law_ending_call_drains(ended, i, nows, now);
    let step = after_ticks(ended, nows).played(now);
    lemma_active(step.core, core.calls[i].uuid);
}

/// A call that goes on plays on its timeslot as its buffer allows: once enough
/// blocks wait, or playout has started, the oldest one is sent and leaves the
/// buffer; before that they all stay. On another timeslot the buffer is not
/// touched and the call stays.
pub proof fn law_tick_plays_the_oldest_block(core: CoreView, i: int, now: u128)
    requires
        core.linked(),
        core.dltime.f != 18,
        0 <= i < core.calls.len(),
        core.calls[i].ts is Some,
        !core.calls[i].ending,
        now - core.calls[i].last_voice_at <= core.idle_timeout_ms * 1_000_000,
        core.calls[i].jitter.target > 0,
    ensures
        ({
            let call = core.calls[i];
            let j = call.jitter;
            let step = core.played(now);
            let own = call.ts == Some(core.dltime.t);
            exists|k: int|
                {
                    &&& 0 <= k < step.core.calls.len()
                    &&& (#[trigger] step.core.calls[k]) == (CallView {
                        jitter: step.core.calls[k].jitter,
                        ..call
                    })
                    &&& !own ==> step.core.calls[k].jitter == j
                    &&& own && j.frames.len() > 0 && (j.started || j.frames.len() >= j.target)
                        ==> step.sent.contains(
                        voice_block(core.identity, core.dltime.t, j.frames[0]),
                    ) && step.core.calls[k].jitter.frames == j.frames.drop_first()
                        && step.core.calls[k].jitter.started
                    &&& own && !j.started && j.frames.len() < j.target
                        ==> step.core.calls[k].jitter == j
                    &&& own && j.started && j.frames.len() == 0
                        ==> !step.core.calls[k].jitter.started
                }
        }),
{
    lemma_after_tick(core, i, now);
    law_tick_of_one_call(core, i, now);
    let call = core.calls[i];
    let p = call.played(core.dltime.t, core.idle_timeout_ms, now);
    let step = core.played(now);
    assert(call.valid());
    let k = choose|k: int| 0 <= k < step.core.calls.len() && step.core.calls[k] == p.call;
    assert(step.core.calls[k] == (CallView { jitter: step.core.calls[k].jitter, ..call }));
}

/// A tick on the TDMA control frame does nothing.
pub proof fn law_frame_18_carries_nothing(core: CoreView, now: u128)
    requires
        core.dltime.f == 18,
    ensures
        core.played(now) == (Step { core, sent: seq![] }),
{
}

/// A tick sends voice first, then ends, and nothing else: voice of the current
/// timeslot to UMAC, and ends to CMCE.
pub proof fn law_tick_sends_voice_then_ends(core: CoreView, now: u128, a: int, b: int)
    requires
        0 <= a < b < core.played(now).sent.len(),
    ensures
        ({
            let sent = core.played(now).sent;
            let first = sent[a];
            let second = sent[b];
            &&& first.msg is Voice || (first.msg matches InnerView::Control(c) && c
                is NetworkCallEnd)
            &&& second.msg is Voice || (second.msg matches InnerView::Control(c) && c
                is NetworkCallEnd)
            &&& second.msg is Voice ==> first.msg is Voice
        }),
{
}

/// Whether every primitive goes where its kind belongs: voice to UMAC, call control
/// to CMCE.
pub open spec fn well_addressed(sent: Seq<MsgView>, src: TetraEntity) -> bool {
    forall|k: int|
        0 <= k < sent.len() ==> {
            let m = #[trigger] sent[k];
            &&& m.src == src
            &&& m.msg is Voice ==> m.sap == Sap::TmdSap && m.dest == TetraEntity::Umac
            &&& m.msg is Control ==> m.sap == Sap::Control && m.dest == TetraEntity::Cmce
            &&& !(m.msg is Other)
        }
}

/// Whether two cores have the same settings and the same time.
pub open spec fn same_settings(a: CoreView, b: CoreView) -> bool {
    &&& a.identity == b.identity
    &&& a.source_issi_base == b.source_issi_base
    &&& a.idle_timeout_ms == b.idle_timeout_ms
    &&& a.jitter_latency == b.jitter_latency
    &&& a.dltime == b.dltime
}

/// Whatever is sent goes where its kind belongs, and neither settings nor time
/// change on the way; only the start of a call is counted.
pub proof fn law_primitives_are_well_addressed(
    core: CoreView,
    local: bool,
    uuid: Option<u128>,
    stream_id: u32,
    source_id: u32,
    target_gssi: u32,
    priority: u8,
    now: u128,
    pcm: Seq<i16>,
    block: Seq<u8>,
    call: u128,
    msg: InnerView,
)
    ensures
        ({
            let start = core.answered(
                local,
                uuid,
                stream_id,
                source_id,
                target_gssi,
                priority,
                now,
            );
            &&& well_addressed(start.sent, core.identity)
            &&& same_settings(start.core, core)
            &&& start.core.decoded_calls == (if uuid is Some {
                core.decoded_calls.wrapping_add(1)
            } else {
                core.decoded_calls
            })
        }),
        ({
            let change = core.talker_changed(stream_id, source_id);
            let tick = core.played(now);
            let prim = core.received(msg);
            &&& well_addressed(change.sent, core.identity) && same_settings(change.core, core)
            &&& well_addressed(tick.sent, core.identity) && same_settings(tick.core, core)
            &&& well_addressed(prim.sent, core.identity) && same_settings(prim.core, core)
            &&& change.core.decoded_calls == core.decoded_calls
            &&& tick.core.decoded_calls == core.decoded_calls
            &&& prim.core.decoded_calls == core.decoded_calls
        }),
        same_settings(core.heard(stream_id, pcm, now), core),
        same_settings(core.coded(call, block), core),
        same_settings(core.ended(stream_id), core),
        core.heard(stream_id, pcm, now).decoded_calls == core.decoded_calls,
        core.coded(call, block).decoded_calls == core.decoded_calls,
        core.ended(stream_id).decoded_calls == core.decoded_calls,
{
}

/// A transmission on a group that is not local does nothing at all.
pub proof fn law_other_groups_are_refused(
    core: CoreView,
    stream_id: u32,
    source_id: u32,
    target_gssi: u32,
    priority: u8,
    now: u128,
)
    ensures
        core.answered(false, None, stream_id, source_id, target_gssi, priority, now) == (Step {
            core,
            sent: seq![],
        }),
{
}

/// A call that the stack has not answered is released at the first tick after its
/// transmission has ended.
pub proof fn law_unanswered_call_ends_at_once(core: CoreView, stream_id: u32, i: int, now: u128)
    requires
        core.linked(),
        core.dltime.f != 18,
        feeds(core, stream_id, i),
        core.calls[i].ts is None,
    ensures
        ({
            let step = core.ended(stream_id).played(now);
            &&& !is_active(step.core, core.calls[i].uuid)
            &&& step.sent.contains(call_release(core.identity, core.calls[i].uuid))
            &&& !is_known(step.core, stream_id)
        }),
{
    law_end_of_transmission_marks_the_call(core, stream_id, i);
    law_steps_keep_linked(
        core,
        true,
        None,
        stream_id,
        0,
        0,
        0,
        now,
        seq![],
        seq![],
        0,
        InnerView::Other,
    );
    let ended = core.ended(stream_id);
    lemma_after_tick(ended, i, now);
    law_tick_of_one_call(ended, i, now);
    lemma_stream_leaves(ended, stream_id, i, now);
}

/// A call that leaves at a tick takes its stream with it.
proof fn lemma_stream_leaves(core: CoreView, stream_id: u32, i: int, now: u128)
    requires
        core.linked(),
        core.dltime.f != 18,
        feeds(core, stream_id, i),
        core.calls[i].played(core.dltime.t, core.idle_timeout_ms, now).done,
    ensures
        !is_known(core.played(now).core, stream_id),
{
    let after = core.played(now).core;
    law_tick_of_one_call(core, i, now);
    lemma_streams_stay_theirs(core, now);
    if is_known(after, stream_id) {
        let s = choose|s: int|
            0 <= s < after.streams.len() && (#[trigger] after.streams[s]).0 == stream_id;
        let e = after.streams[s];
        assert(after.streams.contains(e));
        assert(core.streams.contains(e));
        let a = choose|a: int| 0 <= a < core.streams.len() && core.streams[a] == e;
        let f = (stream_id, core.calls[i].uuid);
        let b = choose|b: int| 0 <= b < core.streams.len() && core.streams[b] == f;
        assert(core.streams[a].0 == core.streams[b].0);
        assert(a == b);
        crate::entity::lemma_feed_found(after.streams, core.calls[i].uuid, s);
        assert(false);
    }
}

/// A tick adds no stream and gives none another call.
proof fn lemma_streams_stay_theirs(core: CoreView, now: u128)
    requires
        core.valid(),
        core.dltime.f != 18,
    ensures
        forall|e: (u32, u128)| #[trigger]
            core.played(now).core.streams.contains(e) ==> core.streams.contains(e),
{
    let p = crate::entity::playout_of(
        core.calls,
        core.streams,
        core.dltime.t,
        core.idle_timeout_ms,
        now,
    );
    crate::entity_laws::lemma_streams_without_released(core.streams, p.released);
}

/// A transmission that is answered with a call is answered with the call that was
/// asked for: same stream, talker, group, priority and time.
pub proof fn law_answer_is_the_call_asked_for(
    core: CoreView,
    uuid: u128,
    stream_id: u32,
    source_id: u32,
    target_gssi: u32,
    priority: u8,
    now: u128,
)
    ensures
        core.answered(true, Some(uuid), stream_id, source_id, target_gssi, priority, now)
            == core.started(uuid, stream_id, source_id, target_gssi, priority, now),
{
}

} // verus!
