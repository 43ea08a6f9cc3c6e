//! What holds of the injection entity as a whole.
use crate::codec::{is_joined, joined_block, law_block_carries_both_frames, TMD_PACKED_BYTES};
use crate::entity::{
    call_index, feeds_other, holds_call, lemma_call_found, lemma_feed_found, lemma_kept_names,
    lemma_stream_found, maps_call, maps_stream, playout_of, source_issi, stream_index, stream_of,
    uuid_of, without_feeds, without_released, CallView, CoreView, EncodeJob, Step, CONTROL_FRAME,
    NO_RESOURCE_REAP_NS, NS_PER_MS,
};
use crate::ipc::PCM_SAMPLES_PER_FRAME;
use crate::sap::{voice_msg, CallControl, InnerView, MsgView, TetraEntity};
use vstd::prelude::*;

verus! {

/// Whether every primitive comes from `identity` and goes to CMCE or UMAC.
pub open spec fn stays_in_cell(sent: Seq<MsgView>, identity: TetraEntity) -> bool {
    forall|i: int|
        0 <= i < sent.len() ==> {
            &&& (#[trigger] sent[i]).src == identity
            &&& sent[i].dest == TetraEntity::Cmce || sent[i].dest == TetraEntity::Umac
        }
}

/// Nothing is ever addressed to Brew: whatever the entity does, every primitive
/// it sends goes to CMCE or UMAC, under its own identity.
pub proof fn law_nothing_goes_to_brew(
    core: CoreView,
    local: bool,
    uuid: Option<u128>,
    stream_id: u32,
    source_id: u32,
    target_gssi: u32,
    priority: u8,
    now: u128,
    msg: InnerView,
)
    ensures
        stays_in_cell(
            core.answered(local, uuid, stream_id, source_id, target_gssi, priority, now).sent,
            core.identity,
        ),
        stays_in_cell(core.talker_changed(stream_id, source_id).sent, core.identity),
        stays_in_cell(core.played(now).sent, core.identity),
        stays_in_cell(core.received(msg).sent, core.identity),
{
}

/// Whether every call is on a group that `local` holds of.
pub open spec fn calls_are_local(calls: Seq<CallView>, local: spec_fn(u32) -> bool) -> bool {
    forall|i: int| 0 <= i < calls.len() ==> local((#[trigger] calls[i]).dest_gssi)
}

/// Whether every call that is asked for is on a group that `local` holds of.
pub open spec fn starts_are_local(sent: Seq<MsgView>, local: spec_fn(u32) -> bool) -> bool {
    forall|i: int|
        0 <= i < sent.len() ==> ((#[trigger] sent[i]).msg matches InnerView::Control(
            CallControl::NetworkCallStart { brew_uuid, source_issi, dest_gssi, priority },
        ) ==> local(dest_gssi))
}

/// Calls stay on local groups. A transmission for another group changes nothing
/// and sends nothing; so as long as calls start on local groups only, every call
/// is on one, and CMCE is never asked for a call on any other.
pub proof fn law_calls_stay_on_local_groups(
    core: CoreView,
    local: spec_fn(u32) -> bool,
    uuid: Option<u128>,
    stream_id: u32,
    source_id: u32,
    target_gssi: u32,
    priority: u8,
    now: u128,
    pcm: Seq<i16>,
    block: Seq<u8>,
    call: u128,
    msg: InnerView,
)
    requires
        core.valid(),
        calls_are_local(core.calls, local),
        uuid is Some ==> local(target_gssi),
    ensures
        !local(target_gssi) ==> core.answered(
            local(target_gssi),
            uuid,
            stream_id,
            source_id,
            target_gssi,
            priority,
            now,
        ) == (Step { core, sent: seq![] }),
        ({
            let step = core.answered(
                local(target_gssi),
                uuid,
                stream_id,
                source_id,
                target_gssi,
                priority,
                now,
            );
            calls_are_local(step.core.calls, local) && starts_are_local(step.sent, local)
        }),
        ({
            let step = core.talker_changed(stream_id, source_id);
            calls_are_local(step.core.calls, local) && starts_are_local(step.sent, local)
        }),
        ({
            let step = core.played(now);
            calls_are_local(step.core.calls, local) && starts_are_local(step.sent, local)
        }),
        ({
            let step = core.received(msg);
            calls_are_local(step.core.calls, local) && starts_are_local(step.sent, local)
        }),
        calls_are_local(core.heard(stream_id, pcm, now).calls, local),
        calls_are_local(core.coded(call, block).calls, local),
        calls_are_local(core.ended(stream_id).calls, local),
{
    lemma_kept(core.calls, core.streams, core.dltime.t, core.idle_timeout_ms, now);
    let p = playout_of(core.calls, core.streams, core.dltime.t, core.idle_timeout_ms, now);
    assert forall|k: int| 0 <= k < p.kept.len() implies local((#[trigger] p.kept[k]).dest_gssi) by {
        let i = choose|i: int|
            0 <= i < core.calls.len() && !leaves(
                #[trigger] core.calls[i],
                core.streams,
                core.dltime.t,
                core.idle_timeout_ms,
                now,
            ) && p.kept[k] == core.calls[i].played(core.dltime.t, core.idle_timeout_ms, now).call;
        assert(p.kept[k].dest_gssi == core.calls[i].dest_gssi);
    }
}

/// The TDMA control frame carries no traffic: a tick on it does nothing.
pub proof fn law_control_frame_is_silent(core: CoreView, now: u128)
    requires
        core.dltime.f == CONTROL_FRAME,
    ensures
        core.played(now) == (Step { core, sent: seq![] }),
{
}

/// Voice plays on the current timeslot only, and is the next block of a call to
/// which that timeslot is allocated.
pub proof fn law_voice_keeps_to_its_timeslot(core: CoreView, now: u128, k: int)
    requires
        core.valid(),
        0 <= k < core.played(now).sent.len(),
        core.played(now).sent[k].msg is Voice,
    ensures
        core.dltime.f != CONTROL_FRAME,
        core.played(now).sent[k].msg->ts == core.dltime.t,
        exists|i: int|
            0 <= i < core.calls.len() && (#[trigger] core.calls[i]).ts == Some(core.dltime.t)
                && core.calls[i].jitter.frames.len() > 0 && core.played(now).sent[k].msg->data
                == core.calls[i].jitter.frames[0],
{
    lemma_blocks(core.calls, core.streams, core.dltime.t, core.idle_timeout_ms, now);
    let p = playout_of(core.calls, core.streams, core.dltime.t, core.idle_timeout_ms, now);
    assert(k < p.blocks.len());
    assert(p.blocks[k].0 == core.dltime.t);
    let i = choose|i: int|
        0 <= i < core.calls.len() && (#[trigger] core.calls[i]).played(
            core.dltime.t,
            core.idle_timeout_ms,
            now,
        ).block == Some(p.blocks[k].1);
    assert(core.calls[i].ts == Some(core.dltime.t));
}

/// One tick, seen from one call: its block is sent, and it stays as
/// [`CallView::played`] says unless it is done. Then its end is sent, and neither
/// the call nor a stream that feeds it is left.
pub proof fn law_tick_of_one_call(core: CoreView, i: int, now: u128)
    requires
        core.linked(),
        core.dltime.f != CONTROL_FRAME,
        0 <= i < core.calls.len(),
    ensures
        ({
            let call = core.calls[i];
            let p = call.played(core.dltime.t, core.idle_timeout_ms, now);
            let step = core.played(now);
            &&& p.block matches Some(b) ==> step.sent.contains(
                voice_msg(core.identity, core.dltime.t, b),
            )
            &&& p.done ==> step.sent.contains(core.end_msg(call.uuid)) && call_index(
                step.core.calls,
                call.uuid,
            ) is None && stream_of(step.core.streams, call.uuid) is None
            &&& !p.done ==> (call_index(step.core.calls, call.uuid) matches Some(k)
                && step.core.calls[k] == p.call)
        }),
{
    let slot = core.dltime.t;
    let idle = core.idle_timeout_ms;
    let call = core.calls[i];
    let pl = playout_of(core.calls, core.streams, slot, idle, now);
    let p = call.played(slot, idle, now);
    let step = core.played(now);
    lemma_released(core.calls, core.streams, core.dltime.t, core.idle_timeout_ms, now);
    lemma_kept(core.calls, core.streams, core.dltime.t, core.idle_timeout_ms, now);
    lemma_blocks(core.calls, core.streams, core.dltime.t, core.idle_timeout_ms, now);
    assert(stream_of(core.streams, call.uuid) is Some);
    let voice = pl.blocks.map_values(
        |b: (u8, Seq<u8>)| voice_msg(core.identity, b.0, b.1),
    );
    let ends = pl.released.map_values(|r: (u32, u128)| core.end_msg(r.1));
    assert(step.sent == voice + ends);
    if p.block is Some {
        let k = choose|k: int| 0 <= k < pl.blocks.len() && pl.blocks[k] == (slot, p.block->0);
        assert(voice[k] == voice_msg(core.identity, slot, p.block->0));
        assert(step.sent[k] == voice[k]);
    }
    if p.done {
        let s = stream_of(core.streams, call.uuid)->0;
        let k = choose|k: int| 0 <= k < pl.released.len() && pl.released[k] == (s, call.uuid);
        assert(ends[k] == core.end_msg(call.uuid));
        assert(step.sent[voice.len() + k] == ends[k]);
        if call_index(step.core.calls, call.uuid) is Some {
            let j = call_index(step.core.calls, call.uuid)->0;
            let m = choose|m: int|
                0 <= m < core.calls.len() && !leaves(
                    #[trigger] core.calls[m],
                    core.streams,
                    slot,
                    idle,
                    now,
                ) && pl.kept[j] == core.calls[m].played(slot, idle, now).call;
            assert(m != i ==> core.calls[m].uuid != call.uuid);
            assert(false);
        }
        lemma_streams_without_released(core.streams, pl.released);
        if stream_of(step.core.streams, call.uuid) is Some {
            let j = choose|j: int| maps_call(step.core.streams, call.uuid, j);
            let e = step.core.streams[j];
            assert(step.core.streams.contains(e));
            assert(core.streams.contains(e));
            let a = core.streams.index_of(e);
            let b = choose|b: int| maps_call(core.streams, call.uuid, b);
            assert(core.streams[a].1 == core.streams[b].1);
            assert(a == b);
            assert(pl.released[k].0 == e.0);
            assert(false);
        }
    } else {
        let k = choose|k: int| 0 <= k < pl.kept.len() && pl.kept[k] == p.call;
        lemma_call_found(step.core.calls, call.uuid, k);
        let j = call_index(step.core.calls, call.uuid)->0;
        lemma_kept_names(core.calls, core.streams, slot, idle, now);
        assert(j == k);
    }
}

/// The core after a tick at each of the given times.
pub open spec fn after_ticks(core: CoreView, nows: Seq<u128>) -> CoreView
    decreases nows.len(),
{
    if nows.len() == 0 {
        core
    } else {
        after_ticks(core, nows.drop_last()).played(nows.last()).core
    }
}

/// A call that ends is played out to its last block, in order, one block per tick
/// of its timeslot; the tick after the last block ends it. So its tail is not
/// clipped.
pub proof fn law_ending_call_drains(core: CoreView, i: int, nows: Seq<u128>, now: u128)
    requires
        core.linked(),
        core.dltime.f != CONTROL_FRAME,
        0 <= i < core.calls.len(),
        core.calls[i].ending,
        core.calls[i].ts == Some(core.dltime.t),
        nows.len() <= core.calls[i].jitter.frames.len(),
    ensures
        ({
            let call = core.calls[i];
            let frames = call.jitter.frames;
            let step = after_ticks(core, nows).played(now);
            &&& nows.len() < frames.len() ==> step.sent.contains(
                voice_msg(core.identity, core.dltime.t, frames[nows.len() as int]),
            ) && call_index(step.core.calls, call.uuid) is Some
            &&& nows.len() == frames.len() ==> step.sent.contains(core.end_msg(call.uuid))
                && call_index(step.core.calls, call.uuid) is None
        }),
{
    let call = core.calls[i];
    lemma_after_ticks(core, i, nows);
    let mid = after_ticks(core, nows);
    let k = call_index(mid.calls, call.uuid)->0;
    law_tick_of_one_call(mid, k, now);
}

/// After some ticks an ending call has played that many blocks.
proof fn lemma_after_ticks(core: CoreView, i: int, nows: Seq<u128>)
    requires
        core.linked(),
        core.dltime.f != CONTROL_FRAME,
        0 <= i < core.calls.len(),
        core.calls[i].ending,
        core.calls[i].ts == Some(core.dltime.t),
        nows.len() <= core.calls[i].jitter.frames.len(),
    ensures
        ({
            let call = core.calls[i];
            let after = after_ticks(core, nows);
            &&& after.linked()
            &&& after.identity == core.identity
            &&& after.dltime == core.dltime
            &&& call_index(after.calls, call.uuid) matches Some(k) && after.calls[k].ending
                && after.calls[k].ts == call.ts && after.calls[k].uuid == call.uuid
                && after.calls[k].jitter.frames == call.jitter.frames.skip(nows.len() as int)
        }),
    decreases nows.len(),
{
    let call = core.calls[i];
    if nows.len() == 0 {
        lemma_call_found(core.calls, call.uuid, i);
        let k = call_index(core.calls, call.uuid)->0;
        assert(k == i);
        assert(call.jitter.frames.skip(0) =~= call.jitter.frames);
    } else {
        let front = nows.drop_last();
        lemma_after_ticks(core, i, front);
        let mid = after_ticks(core, front);
        let k = call_index(mid.calls, call.uuid)->0;
        law_tick_of_one_call(mid, k, nows.last());
        lemma_tick_keeps_linked(mid, nows.last());
        let after = after_ticks(core, nows);
        let j = call_index(after.calls, call.uuid)->0;
        assert(after.calls[j] == mid.calls[k].played(
            core.dltime.t,
            mid.idle_timeout_ms,
            nows.last(),
        ).call);
        assert(call.jitter.frames.skip(front.len() as int).drop_first()
            =~= call.jitter.frames.skip(nows.len() as int));
    }
}

/// Number of calls on a timeslot.
pub open spec fn calls_on(calls: Seq<CallView>, slot: u8) -> nat
    decreases calls.len(),
{
    if calls.len() == 0 {
        0
    } else if calls.last().ts == Some(slot) {
        calls_on(calls.drop_last(), slot) + 1
    } else {
        calls_on(calls.drop_last(), slot)
    }
}

/// Number of voice primitives.
pub open spec fn voices_in(sent: Seq<MsgView>) -> nat
    decreases sent.len(),
{
    if sent.len() == 0 {
        0
    } else if sent.last().msg is Voice {
        voices_in(sent.drop_last()) + 1
    } else {
        voices_in(sent.drop_last())
    }
}

/// A tick plays at most one block for each call on the current timeslot.
pub proof fn law_one_block_per_call_and_tick(core: CoreView, now: u128)
    ensures
        voices_in(core.played(now).sent) <= calls_on(core.calls, core.dltime.t),
{
    if core.dltime.f != CONTROL_FRAME {
        let p = playout_of(core.calls, core.streams, core.dltime.t, core.idle_timeout_ms, now);
        lemma_blocks_at_most(core.calls, core.streams, core.dltime.t, core.idle_timeout_ms, now);
        let voice = p.blocks.map_values(|b: (u8, Seq<u8>)| voice_msg(core.identity, b.0, b.1));
        let ends = p.released.map_values(|r: (u32, u128)| core.end_msg(r.1));
        lemma_voices_at_most(voice, ends);
    }
}

proof fn lemma_voices_at_most(voice: Seq<MsgView>, ends: Seq<MsgView>)
    requires
        forall|i: int| 0 <= i < ends.len() ==> !((#[trigger] ends[i]).msg is Voice),
    ensures
        voices_in(voice + ends) <= voice.len(),
    decreases voice.len() + ends.len(),
{
    let all = voice + ends;
    if ends.len() > 0 {
        assert(all.drop_last() =~= voice + ends.drop_last());
        assert(all.last() == ends[ends.len() - 1]);
        lemma_voices_at_most(voice, ends.drop_last());
    } else if voice.len() > 0 {
        assert(all.drop_last() =~= voice.drop_last() + ends);
        lemma_voices_at_most(voice.drop_last(), ends);
    }
}

proof fn lemma_blocks_at_most(
    calls: Seq<CallView>,
    streams: Seq<(u32, u128)>,
    slot: u8,
    idle: u64,
    now: u128,
)
    ensures
        playout_of(calls, streams, slot, idle, now).blocks.len() <= calls_on(calls, slot),
    decreases calls.len(),
{
    if calls.len() > 0 {
        lemma_blocks_at_most(calls.drop_last(), streams, slot, idle, now);
    }
}

/// A change of talker stays within the call: CMCE is asked for the same call on
/// the same group, with the new talker, and what the old one has left in the
/// buffer is dropped; the timeslot is kept.
pub proof fn law_talker_change_stays_in_the_call(core: CoreView, stream_id: u32, source_id: u32)
    requires
        core.valid(),
        core.changes_talker(stream_id, source_id),
    ensures
        ({
            let i = core.fed_call(stream_id)->0;
            let before = core.calls[i];
            let step = core.talker_changed(stream_id, source_id);
            let after = step.core.calls[i];
            &&& step.sent == seq![
                core.start_msg(
                    before.uuid,
                    source_issi(core.source_issi_base, source_id),
                    before.dest_gssi,
                    before.priority,
                ),
            ]
            &&& after.uuid == before.uuid
            &&& after.ts == before.ts
            &&& after.dest_gssi == before.dest_gssi
            &&& after.source_issi == source_issi(core.source_issi_base, source_id)
            &&& after.jitter.frames.len() == 0
            &&& after.pending.len() == 0
            &&& step.core.streams == core.streams
            &&& step.core.calls.len() == core.calls.len()
        }),
{
    let i = core.fed_call(stream_id)->0;
    assert(holds_call(core.calls, uuid_of(core.streams, stream_id)->0, i));
}

/// A call without resources is given up at the first tick after five seconds, or
/// at once when its transmission has ended, and not before.
pub proof fn law_call_without_resources_is_reaped(core: CoreView, i: int, now: u128)
    requires
        core.linked(),
        core.dltime.f != CONTROL_FRAME,
        0 <= i < core.calls.len(),
        core.calls[i].ts is None,
    ensures
        ({
            let call = core.calls[i];
            let step = core.played(now);
            if call.ending || now - call.created_at > NO_RESOURCE_REAP_NS {
                step.sent.contains(core.end_msg(call.uuid)) && call_index(
                    step.core.calls,
                    call.uuid,
                ) is None
            } else {
                call_index(step.core.calls, call.uuid) matches Some(k) && step.core.calls[k] == call
            }
        }),
{
    law_tick_of_one_call(core, i, now);
}

/// A call that has heard no voice for longer than the idle timeout starts to end
/// at the next tick; one that is still fed does not. (A tick on which the last
/// block of an ending call has gone removes it.)
pub proof fn law_silent_call_ends(core: CoreView, i: int, now: u128)
    requires
        core.linked(),
        core.dltime.f != CONTROL_FRAME,
        0 <= i < core.calls.len(),
        core.calls[i].ts is Some,
        !core.calls[i].ending,
    ensures
        ({
            let call = core.calls[i];
            let step = core.played(now);
            let silent = now - call.last_voice_at > core.idle_timeout_ms * NS_PER_MS;
            match call_index(step.core.calls, call.uuid) {
                Some(k) => step.core.calls[k].ending == silent,
                None => silent && call.ts == Some(core.dltime.t) && call.jitter.frames.len() == 0,
            }
        }),
{
    law_tick_of_one_call(core, i, now);
}

/// Two voice frames make one block: the first waits, the second completes it, and
/// what is handed out to be coded is the two frames as they came.
pub proof fn law_two_frames_make_a_block(
    core: CoreView,
    stream_id: u32,
    a: Seq<i16>,
    b: Seq<i16>,
    now: u128,
    later: u128,
    job: EncodeJob,
)
    requires
        core.valid(),
        core.takes_voice(stream_id, a),
        core.takes_voice(stream_id, b),
        core.calls[core.fed_call(stream_id)->0].pending.len() == 0,
        core.heard(stream_id, a, now).is_job(job, stream_id, b),
    ensures
        !core.completes_block(stream_id, a),
        core.heard(stream_id, a, now).completes_block(stream_id, b),
        job.uuid == core.calls[core.fed_call(stream_id)->0].uuid,
        job.pcm_a@ == a,
        job.pcm_b@ == b,
        ({
            let after = core.heard(stream_id, a, now).heard(stream_id, b, later);
            after.calls[core.fed_call(stream_id)->0].pending.len() == 0
        }),
{
    let mid = core.heard(stream_id, a, now);
    let id = uuid_of(core.streams, stream_id)->0;
    let i = core.fed_call(stream_id)->0;
    assert(holds_call(core.calls, id, i));
    lemma_call_found(mid.calls, id, i);
    let k = call_index(mid.calls, id)->0;
    assert(holds_call(mid.calls, id, k));
    assert(k == i) by {
        assert(mid.calls[k].uuid == core.calls[k].uuid);
    }
    assert(mid.gathered(stream_id, b) =~= a + b);
    assert(job.pcm_a@ =~= a);
    assert(job.pcm_b@ =~= b);
}

/// Two coded frames that come back for a call are queued as one block behind all
/// others: its 35 bytes carry the bits of both.
pub proof fn law_coded_frames_are_queued(core: CoreView, uuid: u128, a: Seq<u8>, b: Seq<u8>)
    requires
        core.valid(),
        call_index(core.calls, uuid) is Some,
    ensures
        ({
            let i = call_index(core.calls, uuid)->0;
            let frames = core.coded(uuid, joined_block(a, b)).calls[i].jitter.frames;
            &&& frames.len() > 0
            &&& frames.last().len() == TMD_PACKED_BYTES
            &&& is_joined(frames.last(), a, b)
        }),
{
    let i = call_index(core.calls, uuid)->0;
    assert(holds_call(core.calls, uuid, i));
    law_block_carries_both_frames(a, b);
}

/// Once a call has started on a stream, voice frames of that stream are taken, for
/// that call.
pub proof fn law_started_call_takes_voice(
    core: CoreView,
    uuid: u128,
    stream_id: u32,
    source_id: u32,
    target_gssi: u32,
    priority: u8,
    now: u128,
    pcm: Seq<i16>,
)
    requires
        core.linked(),
        call_index(core.calls, uuid) is None,
        pcm.len() == PCM_SAMPLES_PER_FRAME,
    ensures
        ({
            let after = core.started(uuid, stream_id, source_id, target_gssi, priority, now).core;
            &&& after.takes_voice(stream_id, pcm)
            &&& after.fed_call(stream_id) matches Some(i) && after.calls[i] == core.new_call(
                uuid,
                source_id,
                target_gssi,
                priority,
                now,
            )
        }),
{
    lemma_superseded_linked(core, stream_id);
    lemma_started_linked(core, uuid, stream_id, source_id, target_gssi, priority, now);
    let after = core.started(uuid, stream_id, source_id, target_gssi, priority, now).core;
    let last = after.streams.len() - 1;
    lemma_stream_found(after.streams, stream_id, last);
    let s = stream_index(after.streams, stream_id)->0;
    assert(maps_stream(after.streams, stream_id, s));
    assert(after.streams[last] == (stream_id, uuid));
    assert(s == last) by {
        if s < last {
            assert(after.streams[s].0 != after.streams[last].0);
        }
    }
    let n = after.calls.len() - 1;
    lemma_call_found(after.calls, uuid, n);
    let i = call_index(after.calls, uuid)->0;
    assert(holds_call(after.calls, uuid, i));
    assert(i == n);
}

/// Frames of a stream that no call has started on change nothing and send nothing.
pub proof fn law_unknown_stream_is_ignored(
    core: CoreView,
    stream_id: u32,
    source_id: u32,
    pcm: Seq<i16>,
    now: u128,
)
    requires
        uuid_of(core.streams, stream_id) is None,
    ensures
        core.heard(stream_id, pcm, now) == core,
        !core.completes_block(stream_id, pcm),
        core.talker_changed(stream_id, source_id) == (Step { core, sent: seq![] }),
        core.ended(stream_id) == core,
{
}

/// The ISSI that stands for a talker lies in the thousand from the base on (or
/// is the highest there is).
pub proof fn law_source_issi_range(base: u32, source_id: u32)
    ensures
        source_issi(base, source_id) >= base,
        source_issi(base, source_id) <= base + 999,
        base + 999 <= u32::MAX ==> source_issi(base, source_id) == base + source_id % 1000,
{
}

/// A stream that starts again ends its call first: CMCE is told of the end and
/// of the new call, in this order, and the stream feeds the new call.
pub proof fn law_restart_ends_the_old_call(
    core: CoreView,
    uuid: u128,
    stream_id: u32,
    source_id: u32,
    target_gssi: u32,
    priority: u8,
    now: u128,
)
    requires
        core.linked(),
        call_index(core.calls, uuid) is None,
        uuid_of(core.streams, stream_id) is Some,
    ensures
        ({
            let old_uuid = uuid_of(core.streams, stream_id)->0;
            let step = core.started(uuid, stream_id, source_id, target_gssi, priority, now);
            &&& step.sent == seq![
                core.end_msg(old_uuid),
                core.start_msg(
                    uuid,
                    source_issi(core.source_issi_base, source_id),
                    target_gssi,
                    priority,
                ),
            ]
            &&& call_index(step.core.calls, old_uuid) is None
            &&& uuid_of(step.core.streams, stream_id) == Some(uuid)
            &&& step.core.calls.len() == core.calls.len()
        }),
{
    let old_uuid = uuid_of(core.streams, stream_id)->0;
    let step = core.started(uuid, stream_id, source_id, target_gssi, priority, now);
    let before = core.superseded(stream_id).core;
    let s = stream_index(core.streams, stream_id)->0;
    let c = call_index(core.calls, old_uuid)->0;
    assert(maps_stream(core.streams, stream_id, s));
    assert(holds_call(core.calls, old_uuid, c));
    assert(core.streams[s].1 == old_uuid);
    assert(call_index(core.calls, core.streams[s].1) is Some);
    if call_index(before.calls, uuid) is Some {
        let k = call_index(before.calls, uuid)->0;
        assert(holds_call(before.calls, uuid, k));
        lemma_call_found(core.calls, uuid, if k < c { k } else { k + 1 });
    }
    if call_index(step.core.calls, old_uuid) is Some {
        let k = call_index(step.core.calls, old_uuid)->0;
        assert(holds_call(step.core.calls, old_uuid, k));
        if k < before.calls.len() {
            assert(before.calls[k].uuid == old_uuid);
            assert(core.calls[if k < c { k } else { k + 1 }].uuid == old_uuid);
            assert(false);
        } else {
            assert(uuid == old_uuid);
            assert(false);
        }
    }
    let last = step.core.streams.len() - 1;
    lemma_stream_found(step.core.streams, stream_id, last);
    let t = stream_index(step.core.streams, stream_id)->0;
    assert(maps_stream(step.core.streams, stream_id, t));
    if t < last {
        assert(core.streams[if t < s { t } else { t + 1 }].0 == stream_id);
        assert(false);
    }
    assert(step.sent =~= seq![
        core.end_msg(old_uuid),
        core.start_msg(
            uuid,
            source_issi(core.source_issi_base, source_id),
            target_gssi,
            priority,
        ),
    ]);
}

/// Streams and calls stay one to one, whatever the entity does, as long as a new
/// call gets an id that no call has.
pub proof fn law_steps_keep_linked(
    core: CoreView,
    local: bool,
    uuid: Option<u128>,
    stream_id: u32,
    source_id: u32,
    target_gssi: u32,
    priority: u8,
    now: u128,
    pcm: Seq<i16>,
    block: Seq<u8>,
    call: u128,
    msg: InnerView,
)
    requires
        core.linked(),
        uuid matches Some(id) ==> call_index(core.calls, id) is None,
    ensures
        core.answered(
            local,
            uuid,
            stream_id,
            source_id,
            target_gssi,
            priority,
            now,
        ).core.linked(),
        core.heard(stream_id, pcm, now).linked(),
        core.coded(call, block).linked(),
        core.talker_changed(stream_id, source_id).core.linked(),
        core.ended(stream_id).linked(),
        core.played(now).core.linked(),
        core.received(msg).core.linked(),
{
    lemma_superseded_linked(core, stream_id);
    if uuid is Some {
        lemma_started_linked(
            core,
            uuid->0,
            stream_id,
            source_id,
            target_gssi,
            priority,
            now,
        );
    }
    lemma_tick_keeps_linked(core, now);
    lemma_received_linked(core, msg);
    if core.fed_call(stream_id) is Some {
        let i = core.fed_call(stream_id)->0;
        assert(holds_call(core.calls, core.calls[i].uuid, i));
        lemma_update_linked(core, core.heard(stream_id, pcm, now), i);
        lemma_update_linked(core, core.talker_changed(stream_id, source_id).core, i);
        lemma_update_linked(core, core.ended(stream_id), i);
    }
    if call_index(core.calls, call) is Some {
        let i = call_index(core.calls, call)->0;
        assert(holds_call(core.calls, call, i));
        lemma_update_linked(core, core.coded(call, block), i);
    }
}

/// A call that is replaced by one of its id leaves streams and calls one to one.
proof fn lemma_update_linked(core: CoreView, after: CoreView, i: int)
    requires
        core.linked(),
        0 <= i < core.calls.len(),
        after.streams == core.streams,
        after.calls.len() == core.calls.len(),
        after.calls[i].uuid == core.calls[i].uuid,
        after.calls[i].valid(),
        forall|j: int|
            0 <= j < core.calls.len() && j != i ==> #[trigger] after.calls[j] == core.calls[j],
    ensures
        after.linked(),
{
    assert forall|k: int| 0 <= k < after.streams.len() implies call_index(
        after.calls,
        (#[trigger] after.streams[k]).1,
    ) is Some by {
        let id = core.streams[k].1;
        let c = call_index(core.calls, id)->0;
        assert(holds_call(core.calls, id, c));
        assert(after.calls[c].uuid == id);
        lemma_call_found(after.calls, id, c);
    }
    assert forall|k: int| 0 <= k < after.calls.len() implies stream_of(
        after.streams,
        (#[trigger] after.calls[k]).uuid,
    ) is Some by {
        assert(core.calls[k].uuid == after.calls[k].uuid);
    }
}

proof fn lemma_superseded_linked(core: CoreView, stream_id: u32)
    requires
        core.linked(),
    ensures
        core.superseded(stream_id).core.linked(),
        stream_index(core.superseded(stream_id).core.streams, stream_id) is None,
        forall|id: u128|
            call_index(core.calls, id) is None ==> #[trigger] call_index(
                core.superseded(stream_id).core.calls,
                id,
            ) is None,
{
    let after = core.superseded(stream_id).core;
    if stream_index(core.streams, stream_id) is Some {
        let s = stream_index(core.streams, stream_id)->0;
        assert(maps_stream(core.streams, stream_id, s));
        let old_uuid = core.streams[s].1;
        assert(call_index(core.calls, core.streams[s].1) is Some);
        let c = call_index(core.calls, old_uuid)->0;
        assert(holds_call(core.calls, old_uuid, c));
        lemma_removed_linked(core, after, s, c);
        if stream_index(after.streams, stream_id) is Some {
            let k = stream_index(after.streams, stream_id)->0;
            assert(maps_stream(after.streams, stream_id, k));
            assert(core.streams[if k < s { k } else { k + 1 }].0 == stream_id);
            assert(false);
        }
        assert forall|id: u128| call_index(core.calls, id) is None implies #[trigger] call_index(
            after.calls,
            id,
        ) is None by {
            if call_index(after.calls, id) is Some {
                let k = call_index(after.calls, id)->0;
                assert(holds_call(after.calls, id, k));
                lemma_call_found(core.calls, id, if k < c { k } else { k + 1 });
            }
        }
    }
}

/// A call that goes together with its stream leaves the others one to one.
proof fn lemma_removed_linked(core: CoreView, after: CoreView, s: int, c: int)
    requires
        core.linked(),
        0 <= s < core.streams.len(),
        0 <= c < core.calls.len(),
        core.streams[s].1 == core.calls[c].uuid,
        after.streams == core.streams.remove(s),
        after.calls == core.calls.remove(c),
    ensures
        after.linked(),
{
    assert forall|k: int| 0 <= k < after.streams.len() implies call_index(
        after.calls,
        (#[trigger] after.streams[k]).1,
    ) is Some by {
        let k0 = if k < s { k } else { k + 1 };
        assert(after.streams[k] == core.streams[k0]);
        let id = core.streams[k0].1;
        let i = call_index(core.calls, id)->0;
        assert(holds_call(core.calls, id, i));
        assert(i != c);
        let i1 = if i < c { i } else { i - 1 };
        assert(after.calls[i1] == core.calls[i]);
        lemma_call_found(after.calls, id, i1);
    }
    assert forall|k: int| 0 <= k < after.calls.len() implies stream_of(
        after.streams,
        (#[trigger] after.calls[k]).uuid,
    ) is Some by {
        let k0 = if k < c { k } else { k + 1 };
        assert(after.calls[k] == core.calls[k0]);
        let id = core.calls[k0].uuid;
        assert(stream_of(core.streams, id) is Some);
        let i = choose|i: int| maps_call(core.streams, id, i);
        assert(i != s);
        let i1 = if i < s { i } else { i - 1 };
        assert(after.streams[i1] == core.streams[i]);
        lemma_feed_found(after.streams, id, i1);
    }
    assert forall|i: int, j: int| 0 <= i < j < after.streams.len() implies (
    #[trigger] after.streams[i]) != (#[trigger] after.streams[j]) && after.streams[i].0
        != after.streams[j].0 && after.streams[i].1 != after.streams[j].1 by {
        assert(after.streams[i] == core.streams[if i < s { i } else { i + 1 }]);
        assert(after.streams[j] == core.streams[if j < s { j } else { j + 1 }]);
    }
    assert forall|i: int, j: int| 0 <= i < j < after.calls.len() implies (
    #[trigger] after.calls[i]).uuid != (#[trigger] after.calls[j]).uuid by {
        assert(after.calls[i] == core.calls[if i < c { i } else { i + 1 }]);
        assert(after.calls[j] == core.calls[if j < c { j } else { j + 1 }]);
    }
}

proof fn lemma_started_linked(
    core: CoreView,
    uuid: u128,
    stream_id: u32,
    source_id: u32,
    target_gssi: u32,
    priority: u8,
    now: u128,
)
    requires
        core.linked(),
        call_index(core.calls, uuid) is None,
    ensures
        core.started(uuid, stream_id, source_id, target_gssi, priority, now).core.linked(),
{
    lemma_superseded_linked(core, stream_id);
    let before = core.superseded(stream_id).core;
    let after = core.started(uuid, stream_id, source_id, target_gssi, priority, now).core;
    assert(call_index(before.calls, uuid) is None);
    let n = before.calls.len() as int;
    let m = before.streams.len() as int;
    assert forall|k: int| 0 <= k < after.streams.len() implies call_index(
        after.calls,
        (#[trigger] after.streams[k]).1,
    ) is Some by {
        if k < m {
            let id = before.streams[k].1;
            let i = call_index(before.calls, id)->0;
            assert(holds_call(before.calls, id, i));
            assert(after.calls[i] == before.calls[i]);
            lemma_call_found(after.calls, id, i);
        } else {
            lemma_call_found(after.calls, uuid, n);
        }
    }
    assert forall|k: int| 0 <= k < after.calls.len() implies stream_of(
        after.streams,
        (#[trigger] after.calls[k]).uuid,
    ) is Some by {
        if k < n {
            let id = before.calls[k].uuid;
            assert(stream_of(before.streams, id) is Some);
            let i = choose|i: int| maps_call(before.streams, id, i);
            assert(after.streams[i] == before.streams[i]);
            lemma_feed_found(after.streams, id, i);
        } else {
            lemma_feed_found(after.streams, uuid, m);
        }
    }
    assert forall|i: int, j: int| 0 <= i < j < after.streams.len() implies (
    #[trigger] after.streams[i]).0 != (#[trigger] after.streams[j]).0 && after.streams[i].1
        != after.streams[j].1 by {
        assert(after.streams[i] == before.streams[i]);
        if j == m {
            if before.streams[i].0 == stream_id {
                lemma_stream_found(before.streams, stream_id, i);
            }
            assert(call_index(before.calls, before.streams[i].1) is Some);
        } else {
            assert(after.streams[j] == before.streams[j]);
        }
    }
    assert forall|i: int, j: int| 0 <= i < j < after.calls.len() implies (
    #[trigger] after.calls[i]).uuid != (#[trigger] after.calls[j]).uuid by {
        assert(after.calls[i] == before.calls[i]);
        if j == n {
            if before.calls[i].uuid == uuid {
                lemma_call_found(before.calls, uuid, i);
            }
        } else {
            assert(after.calls[j] == before.calls[j]);
        }
    }
}

proof fn lemma_received_linked(core: CoreView, msg: InnerView)
    requires
        core.linked(),
    ensures
        core.received(msg).core.linked(),
{
    match msg {
        InnerView::Control(CallControl::NetworkCallReady { brew_uuid, call_id, ts, usage }) => {
            if call_index(core.calls, brew_uuid) is Some {
                let i = call_index(core.calls, brew_uuid)->0;
                assert(holds_call(core.calls, brew_uuid, i));
                lemma_update_linked(core, core.allocated(brew_uuid, ts).core, i);
            }
        },
        InnerView::Control(CallControl::NetworkCallEnd { brew_uuid }) => {
            if call_index(core.calls, brew_uuid) is Some {
                let c = call_index(core.calls, brew_uuid)->0;
                assert(holds_call(core.calls, brew_uuid, c));
                assert(stream_of(core.streams, core.calls[c].uuid) is Some);
                let s = choose|s: int| maps_call(core.streams, brew_uuid, s);
                lemma_filter_is_remove(core.streams, brew_uuid, s);
                lemma_removed_linked(core, core.torn_down(brew_uuid), s, c);
            }
        },
        _ => {},
    }
}

/// Where one stream feeds a call, taking out all that feed it takes out that one.
proof fn lemma_filter_is_remove(streams: Seq<(u32, u128)>, uuid: u128, s: int)
    requires
        0 <= s < streams.len(),
        streams[s].1 == uuid,
        forall|i: int| 0 <= i < streams.len() && i != s ==> (#[trigger] streams[i]).1 != uuid,
    ensures
        without_feeds(streams, uuid) == streams.remove(s),
    decreases streams.len(),
{
    reveal(Seq::filter);
    let keep = feeds_other(uuid);
    let front = streams.drop_last();
    let last = streams.len() - 1;
    assert(streams.last() == streams[last]);
    if s == last {
        lemma_filter_all(front, uuid);
        assert(streams.remove(s) =~= front);
    } else {
        assert forall|i: int| 0 <= i < front.len() && i != s implies (#[trigger] front[i]).1
            != uuid by {
            assert(front[i] == streams[i]);
        }
        lemma_filter_is_remove(front, uuid, s);
        assert(keep(streams[last]));
        assert(front.remove(s).push(streams[last]) =~= streams.remove(s));
    }
}

/// Where no stream feeds a call, all stay.
proof fn lemma_filter_all(streams: Seq<(u32, u128)>, uuid: u128)
    requires
        forall|i: int| 0 <= i < streams.len() ==> (#[trigger] streams[i]).1 != uuid,
    ensures
        without_feeds(streams, uuid) == streams,
    decreases streams.len(),
{
    reveal(Seq::filter);
    if streams.len() > 0 {
        let front = streams.drop_last();
        assert(streams.last() == streams[streams.len() - 1]);
        assert forall|i: int| 0 <= i < front.len() implies (#[trigger] front[i]).1 != uuid by {
            assert(front[i] == streams[i]);
        }
        lemma_filter_all(front, uuid);
        assert(front.push(streams.last()) =~= streams);
    } else {
        assert(streams =~= seq![]);
    }
}

/// The entry under which a call is released.
pub open spec fn release_of(call: CallView, streams: Seq<(u32, u128)>) -> (u32, u128) {
    (stream_of(streams, call.uuid)->0, call.uuid)
}

/// Whether a call leaves at a tick, and does so under the entry `r`.
pub open spec fn is_release(
    call: CallView,
    streams: Seq<(u32, u128)>,
    slot: u8,
    idle_timeout_ms: u64,
    now: u128,
    r: (u32, u128),
) -> bool {
    leaves(call, streams, slot, idle_timeout_ms, now) && r == release_of(call, streams)
}

/// Whether a call leaves at a tick.
pub open spec fn leaves(
    call: CallView,
    streams: Seq<(u32, u128)>,
    slot: u8,
    idle_timeout_ms: u64,
    now: u128,
) -> bool {
    call.played(slot, idle_timeout_ms, now).done && stream_of(streams, call.uuid) is Some
}

/// What a tick makes of the calls that leave, call by call and back.
proof fn lemma_released(
    calls: Seq<CallView>,
    streams: Seq<(u32, u128)>,
    slot: u8,
    idle: u64,
    now: u128,
)
    ensures
        ({
            let pl = playout_of(calls, streams, slot, idle, now);
            &&& forall|i: int|
                0 <= i < calls.len() && leaves(#[trigger] calls[i], streams, slot, idle, now)
                    ==> pl.released.contains(
                    release_of(calls[i], streams),
                )
            &&& forall|k: int|
                0 <= k < pl.released.len() ==> exists|i: int|
                    0 <= i < calls.len() && is_release(#[trigger] calls[i], streams, slot, idle, now, #[trigger] pl.released[k])
        }),
    decreases calls.len(),
{
    if calls.len() > 0 {
        let front = calls.drop_last();
        let last = calls.len() - 1;
        let call = calls[last];
        lemma_released(front, streams, slot, idle, now);
        let b = playout_of(front, streams, slot, idle, now);
        let pl = playout_of(calls, streams, slot, idle, now);
        assert(call == calls.last());
        assert forall|i: int|
            0 <= i < calls.len() && leaves(
                #[trigger] calls[i],
                streams,
                slot,
                idle,
                now,
            ) implies pl.released.contains(
            release_of(calls[i], streams),
        ) by {
            let r = release_of(calls[i], streams);
            if i < last {
                assert(front[i] == calls[i]);
                let k = choose|k: int| 0 <= k < b.released.len() && b.released[k] == r;
                assert(pl.released[k] == r);
            } else {
                assert(pl.released.last() == r);
            }
        }
        assert forall|k: int| 0 <= k < pl.released.len() implies exists|i: int|
            0 <= i < calls.len() && is_release(#[trigger] calls[i], streams, slot, idle, now, #[trigger] pl.released[k]) by {
            if k < b.released.len() {
                assert(pl.released[k] == b.released[k]);
                let i = choose|i: int|
                    0 <= i < front.len() && is_release(#[trigger] front[i], streams, slot, idle, now, b.released[k]);
                assert(calls[i] == front[i]);
            } else {
                assert(calls[last] == call);
            }
        }
    }
}

/// What a tick makes of the calls that stay, call by call and back.
proof fn lemma_kept(
    calls: Seq<CallView>,
    streams: Seq<(u32, u128)>,
    slot: u8,
    idle: u64,
    now: u128,
)
    ensures
        ({
            let pl = playout_of(calls, streams, slot, idle, now);
            &&& forall|i: int|
                0 <= i < calls.len() && !leaves(#[trigger] calls[i], streams, slot, idle, now)
                    ==> pl.kept.contains(calls[i].played(slot, idle, now).call)
            &&& forall|k: int|
                0 <= k < pl.kept.len() ==> exists|i: int|
                    0 <= i < calls.len() && !leaves(
                        #[trigger] calls[i],
                        streams,
                        slot,
                        idle,
                        now,
                    ) && (#[trigger] pl.kept[k]) == calls[i].played(slot, idle, now).call
        }),
    decreases calls.len(),
{
    if calls.len() > 0 {
        let front = calls.drop_last();
        let last = calls.len() - 1;
        let call = calls[last];
        lemma_kept(front, streams, slot, idle, now);
        let b = playout_of(front, streams, slot, idle, now);
        let pl = playout_of(calls, streams, slot, idle, now);
        assert(call == calls.last());
        assert forall|i: int|
            0 <= i < calls.len() && !leaves(
                #[trigger] calls[i],
                streams,
                slot,
                idle,
                now,
            ) implies pl.kept.contains(calls[i].played(slot, idle, now).call) by {
            let c = calls[i].played(slot, idle, now).call;
            if i < last {
                assert(front[i] == calls[i]);
                let k = choose|k: int| 0 <= k < b.kept.len() && b.kept[k] == c;
                assert(pl.kept[k] == c);
            } else {
                assert(pl.kept.last() == c);
            }
        }
        assert forall|k: int| 0 <= k < pl.kept.len() implies exists|i: int|
            0 <= i < calls.len() && !leaves(#[trigger] calls[i], streams, slot, idle, now) && (
            #[trigger] pl.kept[k]) == calls[i].played(slot, idle, now).call by {
            if k < b.kept.len() {
                assert(pl.kept[k] == b.kept[k]);
                let i = choose|i: int|
                    0 <= i < front.len() && !leaves(
                        #[trigger] front[i],
                        streams,
                        slot,
                        idle,
                        now,
                    ) && b.kept[k] == front[i].played(slot, idle, now).call;
                assert(calls[i] == front[i]);
            } else {
                assert(calls[last] == call);
            }
        }
    }
}

/// What a tick plays, call by call and back.
proof fn lemma_blocks(
    calls: Seq<CallView>,
    streams: Seq<(u32, u128)>,
    slot: u8,
    idle: u64,
    now: u128,
)
    ensures
        ({
            let pl = playout_of(calls, streams, slot, idle, now);
            &&& forall|i: int|
                0 <= i < calls.len() ==> ((#[trigger] calls[i]).played(slot, idle, now).block
                    matches Some(b) ==> pl.blocks.contains((slot, b)))
            &&& forall|k: int|
                0 <= k < pl.blocks.len() ==> (#[trigger] pl.blocks[k]).0 == slot && exists|i: int|
                    0 <= i < calls.len() && (#[trigger] calls[i]).played(slot, idle, now).block
                        == Some(pl.blocks[k].1)
        }),
    decreases calls.len(),
{
    if calls.len() > 0 {
        let front = calls.drop_last();
        let last = calls.len() - 1;
        let call = calls[last];
        lemma_blocks(front, streams, slot, idle, now);
        let b = playout_of(front, streams, slot, idle, now);
        let pl = playout_of(calls, streams, slot, idle, now);
        assert(call == calls.last());
        assert forall|i: int| 0 <= i < calls.len() implies ((#[trigger] calls[i]).played(
            slot,
            idle,
            now,
        ).block matches Some(x) ==> pl.blocks.contains((slot, x))) by {
            if calls[i].played(slot, idle, now).block is Some {
                let x = calls[i].played(slot, idle, now).block->0;
                if i < last {
                    assert(front[i] == calls[i]);
                    let k = choose|k: int| 0 <= k < b.blocks.len() && b.blocks[k] == (slot, x);
                    assert(pl.blocks[k] == (slot, x));
                } else {
                    assert(pl.blocks.last() == (slot, x));
                }
            }
        }
        assert forall|k: int| 0 <= k < pl.blocks.len() implies (#[trigger] pl.blocks[k]).0 == slot
            && exists|i: int|
            0 <= i < calls.len() && (#[trigger] calls[i]).played(slot, idle, now).block == Some(
                pl.blocks[k].1,
            ) by {
            if k < b.blocks.len() {
                assert(pl.blocks[k] == b.blocks[k]);
                let i = choose|i: int|
                    0 <= i < front.len() && (#[trigger] front[i]).played(slot, idle, now).block
                        == Some(b.blocks[k].1);
                assert(calls[i] == front[i]);
            } else {
                assert(calls[last].played(slot, idle, now).block == Some(pl.blocks[k].1));
            }
        }
    }
}

/// The streams that are left are those that none of the released calls had.
pub(crate) proof fn lemma_streams_without_released(streams: Seq<(u32, u128)>, released: Seq<(u32, u128)>)
    requires
        forall|i: int, j: int|
            0 <= i < j < streams.len() ==> (#[trigger] streams[i]).0 != (#[trigger] streams[j]).0,
    ensures
        ({
            let left = without_released(streams, released);
            &&& forall|i: int, j: int|
                0 <= i < j < left.len() ==> (#[trigger] left[i]).0 != (#[trigger] left[j]).0
            &&& forall|e: (u32, u128)| #[trigger]
                left.contains(e) ==> streams.contains(e) && forall|k: int|
                    0 <= k < released.len() ==> (#[trigger] released[k]).0 != e.0
            &&& forall|e: (u32, u128)| #[trigger]
                streams.contains(e) && (forall|k: int|
                    0 <= k < released.len() ==> (#[trigger] released[k]).0 != e.0)
                    ==> left.contains(e)
        }),
    decreases released.len(),
{
    if released.len() > 0 {
        let front = released.drop_last();
        lemma_streams_without_released(streams, front);
        let b = without_released(streams, front);
        let left = without_released(streams, released);
        let id = released.last().0;
        let last = released.len() - 1;
        if stream_index(b, id) is Some {
            let s = stream_index(b, id)->0;
            assert(maps_stream(b, id, s));
            assert forall|e: (u32, u128)| #[trigger] left.contains(e) implies streams.contains(e)
                && forall|k: int|
                0 <= k < released.len() ==> (#[trigger] released[k]).0 != e.0 by {
                let i = choose|i: int| 0 <= i < left.len() && left[i] == e;
                let j = if i < s { i } else { i + 1 };
                assert(b[j] == e);
                assert(b.contains(e));
                assert forall|k: int| 0 <= k < released.len() implies (#[trigger] released[k]).0
                    != e.0 by {
                    if k < last {
                        assert(front[k] == released[k]);
                    }
                }
            }
            assert forall|e: (u32, u128)| #[trigger]
                streams.contains(e) && (forall|k: int|
                    0 <= k < released.len() ==> (#[trigger] released[k]).0
                        != e.0) implies left.contains(e) by {
                assert forall|k: int| 0 <= k < front.len() implies (#[trigger] front[k]).0 != e.0 by {
                    assert(released[k] == front[k]);
                }
                assert(b.contains(e));
                let j = choose|j: int| 0 <= j < b.len() && b[j] == e;
                assert(released[last].0 != e.0);
                assert(j != s);
                assert(left[if j < s { j } else { j - 1 }] == e);
            }
        } else {
            assert forall|e: (u32, u128)| #[trigger] left.contains(e) implies streams.contains(e)
                && forall|k: int|
                0 <= k < released.len() ==> (#[trigger] released[k]).0 != e.0 by {
                let i = choose|i: int| 0 <= i < left.len() && left[i] == e;
                assert(b.contains(e));
                assert forall|k: int| 0 <= k < released.len() implies (#[trigger] released[k]).0
                    != e.0 by {
                    if k < last {
                        assert(front[k] == released[k]);
                    } else if id == e.0 {
                        lemma_stream_found(b, id, i);
                    }
                }
            }
            assert forall|e: (u32, u128)| #[trigger]
                streams.contains(e) && (forall|k: int|
                    0 <= k < released.len() ==> (#[trigger] released[k]).0
                        != e.0) implies left.contains(e) by {
                assert forall|k: int| 0 <= k < front.len() implies (#[trigger] front[k]).0 != e.0 by {
                    assert(released[k] == front[k]);
                }
            }
        }
    } else {
        assert(without_released(streams, released) == streams);
    }
}

/// A call that stays keeps its stream.
proof fn lemma_tick_keeps_feed(core: CoreView, now: u128, i: int)
    requires
        core.linked(),
        core.dltime.f != CONTROL_FRAME,
        0 <= i < core.calls.len(),
        !leaves(core.calls[i], core.streams, core.dltime.t, core.idle_timeout_ms, now),
    ensures
        stream_of(core.played(now).core.streams, core.calls[i].uuid) is Some,
{
    let slot = core.dltime.t;
    let idle = core.idle_timeout_ms;
    let pl = playout_of(core.calls, core.streams, slot, idle, now);
    let after = core.played(now).core;
    lemma_released(core.calls, core.streams, slot, idle, now);
    lemma_streams_without_released(core.streams, pl.released);
    let call = core.calls[i];
    assert(stream_of(core.streams, call.uuid) is Some);
    let f = choose|f: int| maps_call(core.streams, call.uuid, f);
    let e = core.streams[f];
    assert(core.streams.contains(e));
    assert forall|r: int| 0 <= r < pl.released.len() implies (#[trigger] pl.released[r]).0
        != e.0 by {
        let j = choose|j: int|
            0 <= j < core.calls.len() && is_release(#[trigger] core.calls[j], core.streams, slot, idle, now, pl.released[r]);
        let g = choose|g: int| maps_call(core.streams, core.calls[j].uuid, g);
        if core.streams[g].0 == e.0 {
            assert(g == f);
            assert(core.calls[i].uuid == core.calls[j].uuid);
            assert(i == j);
            assert(false);
        }
    }
    assert(after.streams.contains(e));
    let s = choose|s: int| 0 <= s < after.streams.len() && after.streams[s] == e;
    lemma_feed_found(after.streams, call.uuid, s);
}

/// A stream that stays keeps its call.
proof fn lemma_tick_keeps_fed(core: CoreView, now: u128, k: int)
    requires
        core.linked(),
        core.dltime.f != CONTROL_FRAME,
        0 <= k < core.played(now).core.streams.len(),
    ensures
        call_index(core.played(now).core.calls, core.played(now).core.streams[k].1) is Some,
{
    let slot = core.dltime.t;
    let idle = core.idle_timeout_ms;
    let pl = playout_of(core.calls, core.streams, slot, idle, now);
    let after = core.played(now).core;
    lemma_released(core.calls, core.streams, slot, idle, now);
    lemma_kept(core.calls, core.streams, slot, idle, now);
    lemma_streams_without_released(core.streams, pl.released);
    let e = after.streams[k];
    assert(after.streams.contains(e));
    let a = choose|a: int| 0 <= a < core.streams.len() && core.streams[a] == e;
    assert(call_index(core.calls, core.streams[a].1) is Some);
    let i = choose|i: int| holds_call(core.calls, e.1, i);
    let call = core.calls[i];
    if leaves(call, core.streams, slot, idle, now) {
        let r = release_of(call, core.streams);
        let x = choose|x: int| 0 <= x < pl.released.len() && pl.released[x] == r;
        let f = choose|f: int| maps_call(core.streams, call.uuid, f);
        assert(core.streams[f].1 == core.streams[a].1);
        assert(f == a);
        assert(pl.released[x].0 == e.0);
        assert(false);
    }
    let c = call.played(slot, idle, now).call;
    let y = choose|y: int| 0 <= y < pl.kept.len() && pl.kept[y] == c;
    lemma_call_found(after.calls, e.1, y);
}

/// A tick keeps streams and calls one to one.
proof fn lemma_tick_keeps_linked(core: CoreView, now: u128)
    requires
        core.linked(),
    ensures
        core.played(now).core.linked(),
{
    if core.dltime.f != CONTROL_FRAME {
        let slot = core.dltime.t;
        let idle = core.idle_timeout_ms;
        let pl = playout_of(core.calls, core.streams, slot, idle, now);
        let after = core.played(now).core;
        lemma_kept(core.calls, core.streams, slot, idle, now);
        lemma_kept_names(core.calls, core.streams, slot, idle, now);
        lemma_streams_without_released(core.streams, pl.released);
        assert forall|k: int| 0 <= k < after.calls.len() implies (#[trigger] after.calls[k]).valid()
            && stream_of(after.streams, after.calls[k].uuid) is Some by {
            let i = choose|i: int|
                0 <= i < core.calls.len() && !leaves(
                    #[trigger] core.calls[i],
                    core.streams,
                    slot,
                    idle,
                    now,
                ) && pl.kept[k] == core.calls[i].played(slot, idle, now).call;
            assert(core.calls[i].valid());
            lemma_tick_keeps_feed(core, now, i);
        }
        assert forall|k: int| 0 <= k < after.streams.len() implies call_index(
            after.calls,
            (#[trigger] after.streams[k]).1,
        ) is Some by {
            lemma_tick_keeps_fed(core, now, k);
        }
        assert forall|i: int, j: int| 0 <= i < j < after.streams.len() implies (
        #[trigger] after.streams[i]).1 != (#[trigger] after.streams[j]).1 by {
            let x = after.streams[i];
            let y = after.streams[j];
            assert(after.streams.contains(x));
            assert(after.streams.contains(y));
            let a = choose|a: int| 0 <= a < core.streams.len() && core.streams[a] == x;
            let b = choose|b: int| 0 <= b < core.streams.len() && core.streams[b] == y;
            assert(x.0 != y.0);
            assert(a != b);
        }
    }
}

} // verus!
