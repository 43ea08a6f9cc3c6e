//! The injection entity: turns frames from the DMR receiver and TDMA ticks into
//! the primitives of a local TETRA group call.
//!
//! The entity speaks only to CMCE (call control) and UMAC (voice). A call is
//! originated only on a group that is local to the cell, so the traffic cannot
//! be routed out of it.
//!
//! Voice is coded outside: [`Core::on_voice`] hands out 60 ms of PCM as an
//! [`EncodeJob`], and [`Core::on_encoded`] takes the two coded frames back.
use crate::codec::{
    join_codec_frames_to_tmd_block, CODED_BYTES_PER_FRAME, PCM_SAMPLES_PER_FRAME,
};
use crate::ipc::{BodyView, FlowDmrBody, FlowDmrFrame};
use crate::jitter::VoiceJitterBuffer;
use crate::outside::{fresh_uuid, is_random_id};
use crate::sap::{
    CallControl, MessageQueue, MsgView, Sap, SapMsg, SapMsgInner, TdmaTime, TetraEntity, TmdCircuitDataReq,
};
use crate::text::parse_u64;
use vstd::prelude::*;

verus! {

/// The identity of the entity unless a dedicated one is asked for.
pub const SELF_ENTITY: TetraEntity = TetraEntity::Brew;

/// Nanoseconds after which a call without resources is given up.
pub const NO_RESOURCE_REAP_NS: u128 = 5_000_000_000;

/// Nanoseconds in a millisecond.
pub const NS_PER_MS: u128 = 1_000_000;

/// Samples in one 60 ms voice block.
pub const SAMPLES_PER_BLOCK: usize = 480;

/// The TDMA frame that carries no traffic.
pub const CONTROL_FRAME: u8 = 18;

/// Tunables of the entity.
pub struct Settings {
    /// Address on which frames are received.
    pub listen: String,
    /// The identity under which the entity sends.
    pub identity: TetraEntity,
    /// First ISSI used for talkers.
    pub source_issi_base: u32,
    /// A call without voice for longer than this ends.
    pub idle_timeout_ms: u64,
    /// Extra blocks of jitter latency.
    pub jitter_initial_latency_frames: usize,
}

/// The number that a variable holds, or the default when it is unset or no number.
pub open spec fn number_or(var: Option<String>, default: u64) -> u64 {
    match var {
        Some(s) => match crate::text::parsed_up_to(s@, u64::MAX as nat) {
            Some(n) => n as u64,
            None => default,
        },
        None => default,
    }
}

/// Mathematical value of [`Settings`].
pub struct SettingsView {
    pub listen: Seq<char>,
    pub identity: TetraEntity,
    pub source_issi_base: u32,
    pub idle_timeout_ms: u64,
    pub jitter_initial_latency_frames: usize,
}

impl View for Settings {
    type V = SettingsView;

    open spec fn view(&self) -> SettingsView {
        SettingsView {
            listen: self.listen@,
            identity: self.identity,
            source_issi_base: self.source_issi_base,
            idle_timeout_ms: self.idle_timeout_ms,
            jitter_initial_latency_frames: self.jitter_initial_latency_frames,
        }
    }
}

/// The settings that four variables ask for.
pub open spec fn settings_of(
    listen: Option<String>,
    source_issi_base: Option<String>,
    idle_timeout_ms: Option<String>,
    jitter_frames: Option<String>,
) -> SettingsView {
    SettingsView {
        listen: match listen {
            Some(s) => s@,
            None => "127.0.0.1:23471"@,
        },
        identity: SELF_ENTITY,
        source_issi_base: (number_or(source_issi_base, 9_000_000) % 0x1_0000_0000) as u32,
        idle_timeout_ms: number_or(idle_timeout_ms, 1800),
        jitter_initial_latency_frames: number_or(jitter_frames, 2) as usize,
    }
}

fn parse_or(var: Option<String>, default: u64) -> (r: u64)
    ensures
        r == number_or(var, default),
{
    match var {
        Some(s) => match parse_u64(s.as_str()) {
            Some(n) => n,
            None => default,
        },
        None => default,
    }
}

impl Settings {
    /// The settings that environment variables ask for.
    pub fn from_vars(
        listen: Option<String>,
        source_issi_base: Option<String>,
        idle_timeout_ms: Option<String>,
        jitter_frames: Option<String>,
    ) -> (r: Self)
        ensures
            r@ == settings_of(listen, source_issi_base, idle_timeout_ms, jitter_frames),
            r.listen@ == (match listen {
                Some(s) => s@,
                None => "127.0.0.1:23471"@,
            }),
            r.identity == SELF_ENTITY,
            r.source_issi_base == number_or(source_issi_base, 9_000_000) % 0x1_0000_0000,
            r.idle_timeout_ms == number_or(idle_timeout_ms, 1800),
            r.jitter_initial_latency_frames == number_or(jitter_frames, 2) as usize,
    {
        let listen = match listen {
            Some(s) => s,
            None => "127.0.0.1:23471".to_string(),
        };
        let base = parse_or(source_issi_base, 9_000_000);
        Settings {
            listen,
            identity: SELF_ENTITY,
            source_issi_base: (base % 0x1_0000_0000) as u32,
            idle_timeout_ms: parse_or(idle_timeout_ms, 1800),
            jitter_initial_latency_frames: parse_or(jitter_frames, 2) as usize,
        }
    }
}

/// The ISSI that stands for a DMR talker.
pub open spec fn source_issi(base: u32, source_id: u32) -> u32 {
    if base + source_id % 1000 > u32::MAX {
        u32::MAX
    } else {
        (base + source_id % 1000) as u32
    }
}

/// Time passed from `then` to `now`; none when `then` lies ahead.
pub open spec fn elapsed(now: u128, then: u128) -> int {
    if now > then {
        now - then
    } else {
        0
    }
}

/// One active injected call.
struct ActiveCall {
    uuid: u128,
    source_issi: u32,
    dest_gssi: u32,
    priority: u8,
    /// Set once CMCE replies with the timeslot.
    ts: Option<u8>,
    created_at: u128,
    jitter: VoiceJitterBuffer,
    pending_pcm: Vec<i16>,
    last_voice_at: u128,
    /// Remaining audio is drained and then the call is released.
    ending: bool,
}

/// Mathematical value of an active call.
pub struct CallView {
    pub uuid: u128,
    pub source_issi: u32,
    pub dest_gssi: u32,
    pub priority: u8,
    pub ts: Option<u8>,
    pub created_at: u128,
    pub jitter: crate::jitter::JitterView,
    pub pending: Seq<i16>,
    pub last_voice_at: u128,
    pub ending: bool,
}

/// What one playout tick makes of one call.
pub struct Played {
    /// The call afterwards.
    pub call: CallView,
    /// The voice block to send.
    pub block: Option<Seq<u8>>,
    /// Whether the call has nothing left to do.
    pub done: bool,
}

impl CallView {
    pub open spec fn valid(self) -> bool {
        &&& self.jitter.valid()
        &&& self.pending.len() == 0 || self.pending.len() == PCM_SAMPLES_PER_FRAME
    }

    /// One playout tick on timeslot `slot`.
    pub open spec fn played(self, slot: u8, idle_timeout_ms: u64, now: u128) -> Played {
        match self.ts {
            None => Played {
                call: self,
                block: None,
                done: self.ending || elapsed(now, self.created_at) > NO_RESOURCE_REAP_NS,
            },
            Some(ts) => {
                let ending = self.ending || elapsed(now, self.last_voice_at) > idle_timeout_ms
                    * NS_PER_MS;
                let call = CallView { ending, ..self };
                if ts != slot {
                    Played { call, block: None, done: false }
                } else if ending {
                    Played {
                        call: CallView { jitter: self.jitter.after_drain(), ..call },
                        block: self.jitter.drained(),
                        done: self.jitter.drained() is None,
                    }
                } else {
                    Played {
                        call: CallView { jitter: self.jitter.after_ready(), ..call },
                        block: self.jitter.ready(),
                        done: false,
                    }
                }
            },
        }
    }
}

impl View for ActiveCall {
    type V = CallView;

    closed spec fn view(&self) -> CallView {
        CallView {
            uuid: self.uuid,
            source_issi: self.source_issi,
            dest_gssi: self.dest_gssi,
            priority: self.priority,
            ts: self.ts,
            created_at: self.created_at,
            jitter: self.jitter@,
            pending: self.pending_pcm@,
            last_voice_at: self.last_voice_at,
            ending: self.ending,
        }
    }
}

impl ActiveCall {
    fn play(&mut self, slot: u8, idle_timeout_ms: u64, now: u128) -> (r: (Option<Vec<u8>>, bool))
        requires
            old(self)@.valid(),
        ensures
            final(self)@ == old(self)@.played(slot, idle_timeout_ms, now).call,
            final(self)@.valid(),
            match r.0 {
                Some(b) => old(self)@.played(slot, idle_timeout_ms, now).block == Some(b@),
                None => old(self)@.played(slot, idle_timeout_ms, now).block is None,
            },
            r.1 == old(self)@.played(slot, idle_timeout_ms, now).done,
    {
        let ts = match self.ts {
            Some(ts) => ts,
            None => {
                return (
                    None,
                    self.ending || now.saturating_sub(self.created_at) > NO_RESOURCE_REAP_NS,
                );
            },
        };
        let idle_ns: u128 = idle_timeout_ms as u128 * NS_PER_MS;
        if !self.ending && now.saturating_sub(self.last_voice_at) > idle_ns {
            self.ending = true;
        }
        if ts != slot {
            return (None, false);
        }
        if self.ending {
            let block = self.jitter.pop_drain();
            let done = block.is_none();
            (block, done)
        } else {
            (self.jitter.pop_ready(), false)
        }
    }
}

/// Whether entry `i` is the first that maps stream `id`.
pub open spec fn maps_stream(streams: Seq<(u32, u128)>, id: u32, i: int) -> bool {
    &&& 0 <= i < streams.len()
    &&& streams[i].0 == id
    &&& forall|j: int| 0 <= j < i ==> (#[trigger] streams[j]).0 != id
}

/// Whether entry `i` is the first that maps to call `uuid`.
pub open spec fn maps_call(streams: Seq<(u32, u128)>, uuid: u128, i: int) -> bool {
    &&& 0 <= i < streams.len()
    &&& streams[i].1 == uuid
    &&& forall|j: int| 0 <= j < i ==> (#[trigger] streams[j]).1 != uuid
}

/// Whether call `i` is the first with id `uuid`.
pub open spec fn holds_call(calls: Seq<CallView>, uuid: u128, i: int) -> bool {
    &&& 0 <= i < calls.len()
    &&& calls[i].uuid == uuid
    &&& forall|j: int| 0 <= j < i ==> (#[trigger] calls[j]).uuid != uuid
}

/// Place of the entry of stream `id`.
pub open spec fn stream_index(streams: Seq<(u32, u128)>, id: u32) -> Option<int> {
    if exists|i: int| maps_stream(streams, id, i) {
        Some(choose|i: int| maps_stream(streams, id, i))
    } else {
        None
    }
}

/// The call that stream `id` feeds.
pub open spec fn uuid_of(streams: Seq<(u32, u128)>, id: u32) -> Option<u128> {
    match stream_index(streams, id) {
        Some(i) => Some(streams[i].1),
        None => None,
    }
}

/// The stream that feeds call `uuid`.
pub open spec fn stream_of(streams: Seq<(u32, u128)>, uuid: u128) -> Option<u32> {
    if exists|i: int| maps_call(streams, uuid, i) {
        Some(streams[choose|i: int| maps_call(streams, uuid, i)].0)
    } else {
        None
    }
}

/// The streams without stream `id`.
pub open spec fn without_stream(streams: Seq<(u32, u128)>, id: u32) -> Seq<(u32, u128)> {
    match stream_index(streams, id) {
        Some(i) => streams.remove(i),
        None => streams,
    }
}

/// The streams without any that feeds call `uuid`.
pub open spec fn without_feeds(streams: Seq<(u32, u128)>, uuid: u128) -> Seq<(u32, u128)> {
    streams.filter(feeds_other(uuid))
}

/// Whether an entry feeds another call than `uuid`.
pub open spec fn feeds_other(uuid: u128) -> spec_fn((u32, u128)) -> bool {
    |e: (u32, u128)| e.1 != uuid
}

/// Place of call `uuid`.
pub open spec fn call_index(calls: Seq<CallView>, uuid: u128) -> Option<int> {
    if exists|i: int| holds_call(calls, uuid, i) {
        Some(choose|i: int| holds_call(calls, uuid, i))
    } else {
        None
    }
}

/// The calls without call `uuid`.
pub open spec fn without_call(calls: Seq<CallView>, uuid: u128) -> Seq<CallView> {
    match call_index(calls, uuid) {
        Some(i) => calls.remove(i),
        None => calls,
    }
}

/// The calls with `call` in the place of one with its id, or at the end.
pub open spec fn with_call(calls: Seq<CallView>, call: CallView) -> Seq<CallView> {
    match call_index(calls, call.uuid) {
        Some(i) => calls.update(i, call),
        None => calls.push(call),
    }
}

/// What one playout tick makes of all calls.
pub struct Playout {
    /// The calls that stay.
    pub kept: Seq<CallView>,
    /// The voice blocks to send, with their timeslots.
    pub blocks: Seq<(u8, Seq<u8>)>,
    /// The calls that are released, with their streams.
    pub released: Seq<(u32, u128)>,
}

/// One playout tick over `calls`, in order.
pub open spec fn playout_of(
    calls: Seq<CallView>,
    streams: Seq<(u32, u128)>,
    slot: u8,
    idle_timeout_ms: u64,
    now: u128,
) -> Playout
    decreases calls.len(),
{
    if calls.len() == 0 {
        Playout { kept: seq![], blocks: seq![], released: seq![] }
    } else {
        let before = playout_of(calls.drop_last(), streams, slot, idle_timeout_ms, now);
        let call = calls.last();
        let p = call.played(slot, idle_timeout_ms, now);
        let stream = stream_of(streams, call.uuid);
        let gone = p.done && stream is Some;
        Playout {
            kept: if gone {
                before.kept
            } else {
                before.kept.push(p.call)
            },
            blocks: match p.block {
                Some(b) => before.blocks.push((slot, b)),
                None => before.blocks,
            },
            released: if gone {
                before.released.push((stream->0, call.uuid))
            } else {
                before.released
            },
        }
    }
}

/// The streams without those of the released calls.
pub open spec fn without_released(
    streams: Seq<(u32, u128)>,
    released: Seq<(u32, u128)>,
) -> Seq<(u32, u128)>
    decreases released.len(),
{
    if released.len() == 0 {
        streams
    } else {
        without_stream(without_released(streams, released.drop_last()), released.last().0)
    }
}

/// Mathematical value of the [`Core`].
pub struct CoreView {
    pub identity: TetraEntity,
    pub source_issi_base: u32,
    pub idle_timeout_ms: u64,
    pub jitter_latency: usize,
    pub dltime: TdmaTime,
    /// Which stream feeds which call.
    pub streams: Seq<(u32, u128)>,
    /// The active calls, oldest first.
    pub calls: Seq<CallView>,
    /// Calls started, modulo 2^64.
    pub decoded_calls: u64,
}

/// A state with the primitives sent on the way to it.
pub struct Step {
    pub core: CoreView,
    pub sent: Seq<MsgView>,
}

impl CoreView {
    /// What holds of every core: streams and calls are named once, and every
    /// call is in order.
    pub open spec fn valid(self) -> bool {
        &&& forall|i: int, j: int|
            0 <= i < j < self.streams.len() ==> (#[trigger] self.streams[i]).0 != (
            #[trigger] self.streams[j]).0
        &&& forall|i: int, j: int|
            0 <= i < j < self.calls.len() ==> (#[trigger] self.calls[i]).uuid != (
            #[trigger] self.calls[j]).uuid
        &&& forall|i: int| 0 <= i < self.calls.len() ==> (#[trigger] self.calls[i]).valid()
    }

    /// Whether streams and calls belong to each other one to one.
    pub open spec fn linked(self) -> bool {
        &&& self.valid()
        &&& forall|i: int, j: int|
            0 <= i < j < self.streams.len() ==> (#[trigger] self.streams[i]).1 != (
            #[trigger] self.streams[j]).1
        &&& forall|i: int|
            0 <= i < self.streams.len() ==> call_index(
                self.calls,
                (#[trigger] self.streams[i]).1,
            ) is Some
        &&& forall|i: int|
            0 <= i < self.calls.len() ==> stream_of(
                self.streams,
                (#[trigger] self.calls[i]).uuid,
            ) is Some
    }

    /// The primitive that asks CMCE for a call with the given talker.
    pub open spec fn start_msg(
        self,
        uuid: u128,
        source_issi: u32,
        dest_gssi: u32,
        priority: u8,
    ) -> MsgView {
        crate::sap::control_msg(
            self.identity,
            CallControl::NetworkCallStart { brew_uuid: uuid, source_issi, dest_gssi, priority },
        )
    }

    /// The primitive that ends a call.
    pub open spec fn end_msg(self, uuid: u128) -> MsgView {
        crate::sap::control_msg(self.identity, CallControl::NetworkCallEnd { brew_uuid: uuid })
    }

    /// Any call of stream `stream_id` ends.
    pub open spec fn superseded(self, stream_id: u32) -> Step {
        match uuid_of(self.streams, stream_id) {
            Some(old_uuid) => Step {
                core: CoreView {
                    streams: without_stream(self.streams, stream_id),
                    calls: without_call(self.calls, old_uuid),
                    ..self
                },
                sent: seq![self.end_msg(old_uuid)],
            },
            None => Step { core: self, sent: seq![] },
        }
    }

    /// A call that has just been created.
    pub open spec fn new_call(
        self,
        uuid: u128,
        source_id: u32,
        dest_gssi: u32,
        priority: u8,
        now: u128,
    ) -> CallView {
        let latency = crate::jitter::clamp(
            self.jitter_latency as int,
            0,
            crate::jitter::TARGET_MAX_FRAMES - crate::jitter::MIN_FRAMES,
        );
        CallView {
            uuid,
            source_issi: source_issi(self.source_issi_base, source_id),
            dest_gssi,
            priority,
            ts: None,
            created_at: now,
            jitter: crate::jitter::JitterView::fresh(
                crate::jitter::BASE_FRAMES + latency,
                latency,
            ),
            pending: seq![],
            last_voice_at: now,
            ending: false,
        }
    }

    /// A call starts on a stream, under the id `uuid`.
    pub open spec fn started(
        self,
        uuid: u128,
        stream_id: u32,
        source_id: u32,
        target_gssi: u32,
        priority: u8,
        now: u128,
    ) -> Step {
        let before = self.superseded(stream_id);
        let call = self.new_call(uuid, source_id, target_gssi, priority, now);
        Step {
            core: CoreView {
                streams: before.core.streams.push((stream_id, uuid)),
                calls: with_call(before.core.calls, call),
                decoded_calls: self.decoded_calls.wrapping_add(1),
                ..self
            },
            sent: before.sent.push(
                self.start_msg(uuid, call.source_issi, target_gssi, priority),
            ),
        }
    }

    /// The start of a transmission is answered: by a call under the id `uuid`,
    /// or, where none comes about, by ending the call that a local group's stream
    /// feeds. On a group that is not local nothing happens.
    pub open spec fn answered(
        self,
        local: bool,
        uuid: Option<u128>,
        stream_id: u32,
        source_id: u32,
        target_gssi: u32,
        priority: u8,
        now: u128,
    ) -> Step {
        match uuid {
            Some(uuid) => self.started(uuid, stream_id, source_id, target_gssi, priority, now),
            None => if local {
                self.superseded(stream_id)
            } else {
                Step { core: self, sent: seq![] }
            },
        }
    }

    /// The call that stream `stream_id` feeds.
    pub open spec fn fed_call(self, stream_id: u32) -> Option<int> {
        match uuid_of(self.streams, stream_id) {
            Some(uuid) => call_index(self.calls, uuid),
            None => None,
        }
    }

    /// The samples that wait once a voice frame has come in.
    pub open spec fn gathered(self, stream_id: u32, pcm: Seq<i16>) -> Seq<i16> {
        self.calls[self.fed_call(stream_id)->0].pending + pcm
    }

    /// Whether a voice frame is taken: it belongs to a call and has the right size.
    pub open spec fn takes_voice(self, stream_id: u32, pcm: Seq<i16>) -> bool {
        pcm.len() == PCM_SAMPLES_PER_FRAME && self.fed_call(stream_id) is Some
    }

    /// A voice frame comes in.
    pub open spec fn heard(self, stream_id: u32, pcm: Seq<i16>, now: u128) -> CoreView {
        if self.takes_voice(stream_id, pcm) {
            let i = self.fed_call(stream_id)->0;
            let all = self.gathered(stream_id, pcm);
            let call = CallView {
                pending: if all.len() >= SAMPLES_PER_BLOCK {
                    all.skip(SAMPLES_PER_BLOCK as int)
                } else {
                    all
                },
                last_voice_at: now,
                ..self.calls[i]
            };
            CoreView { calls: self.calls.update(i, call), ..self }
        } else {
            self
        }
    }

    /// Whether a voice frame completes a block.
    pub open spec fn completes_block(self, stream_id: u32, pcm: Seq<i16>) -> bool {
        self.takes_voice(stream_id, pcm) && self.gathered(stream_id, pcm).len()
            >= SAMPLES_PER_BLOCK
    }

    /// A coded block comes back for call `uuid`.
    pub open spec fn coded(self, uuid: u128, block: Seq<u8>) -> CoreView {
        match call_index(self.calls, uuid) {
            Some(i) => CoreView {
                calls: self.calls.update(
                    i,
                    CallView { jitter: self.calls[i].jitter.pushed(block), ..self.calls[i] },
                ),
                ..self
            },
            None => self,
        }
    }

    /// Whether a new talker on a stream means a change for its call.
    pub open spec fn changes_talker(self, stream_id: u32, source_id: u32) -> bool {
        self.fed_call(stream_id) matches Some(i) && self.calls[i].source_issi != source_issi(
            self.source_issi_base,
            source_id,
        )
    }

    /// The talker of a stream changes.
    pub open spec fn talker_changed(self, stream_id: u32, source_id: u32) -> Step {
        if self.changes_talker(stream_id, source_id) {
            let i = self.fed_call(stream_id)->0;
            let issi = source_issi(self.source_issi_base, source_id);
            let call = CallView {
                jitter: self.calls[i].jitter.flushed(),
                source_issi: issi,
                pending: seq![],
                ..self.calls[i]
            };
            Step {
                core: CoreView { calls: self.calls.update(i, call), ..self },
                sent: seq![self.start_msg(call.uuid, issi, call.dest_gssi, call.priority)],
            }
        } else {
            Step { core: self, sent: seq![] }
        }
    }

    /// The transmission on a stream ends.
    pub open spec fn ended(self, stream_id: u32) -> CoreView {
        match self.fed_call(stream_id) {
            Some(i) => CoreView {
                calls: self.calls.update(i, CallView { ending: true, ..self.calls[i] }),
                ..self
            },
            None => self,
        }
    }

    /// One playout tick at the current TDMA time.
    pub open spec fn played(self, now: u128) -> Step {
        if self.dltime.f == CONTROL_FRAME {
            Step { core: self, sent: seq![] }
        } else {
            let p = playout_of(self.calls, self.streams, self.dltime.t, self.idle_timeout_ms, now);
            let voice = p.blocks.map_values(
                |b: (u8, Seq<u8>)| crate::sap::voice_msg(self.identity, b.0, b.1),
            );
            let ends = p.released.map_values(|r: (u32, u128)| self.end_msg(r.1));
            Step {
                core: CoreView {
                    calls: p.kept,
                    streams: without_released(self.streams, p.released),
                    ..self
                },
                sent: voice + ends,
            }
        }
    }

    /// CMCE has allocated timeslot `ts` for call `uuid`.
    pub open spec fn allocated(self, uuid: u128, ts: u8) -> Step {
        match call_index(self.calls, uuid) {
            Some(i) => Step {
                core: CoreView {
                    calls: self.calls.update(i, CallView { ts: Some(ts), ..self.calls[i] }),
                    ..self
                },
                sent: seq![],
            },
            None => Step { core: self, sent: seq![self.end_msg(uuid)] },
        }
    }

    /// CMCE has ended call `uuid`.
    pub open spec fn torn_down(self, uuid: u128) -> CoreView {
        match call_index(self.calls, uuid) {
            Some(i) => CoreView {
                calls: self.calls.remove(i),
                streams: without_feeds(self.streams, uuid),
                ..self
            },
            None => self,
        }
    }

    /// A primitive from the stack comes in.
    pub open spec fn received(self, msg: crate::sap::InnerView) -> Step {
        match msg {
            crate::sap::InnerView::Control(
                CallControl::NetworkCallReady { brew_uuid, call_id, ts, usage },
            ) => self.allocated(brew_uuid, ts),
            crate::sap::InnerView::Control(CallControl::NetworkCallEnd { brew_uuid }) => Step {
                core: self.torn_down(brew_uuid),
                sent: seq![],
            },
            _ => Step { core: self, sent: seq![] },
        }
    }
}

/// 60 ms of speech of one call, to be coded as two frames.
pub struct EncodeJob {
    pub uuid: u128,
    pub pcm_a: [i16; PCM_SAMPLES_PER_FRAME],
    pub pcm_b: [i16; PCM_SAMPLES_PER_FRAME],
}

/// What is left to do after a frame has been handled.
pub enum FrameOutcome {
    /// Nothing.
    Done,
    /// Nothing: the group of a new transmission is not local.
    Refused,
    /// A call was started under this id.
    Started(u128),
    /// Speech is to be coded and handed back with [`Core::on_encoded`].
    Encode(EncodeJob),
}

impl FrameOutcome {
    /// The id of the call that was started.
    pub open spec fn started(self) -> Option<u128> {
        match self {
            FrameOutcome::Started(uuid) => Some(uuid),
            _ => None,
        }
    }
}

/// Call management: frames and ticks in, primitives out. Times are nanoseconds
/// on one clock that does not run backwards.
pub struct Core {
    settings: Settings,
    dltime: TdmaTime,
    streams: Vec<(u32, u128)>,
    calls: Vec<ActiveCall>,
    decoded_calls: u64,
}

impl View for Core {
    type V = CoreView;

    closed spec fn view(&self) -> CoreView {
        CoreView {
            identity: self.settings.identity,
            source_issi_base: self.settings.source_issi_base,
            idle_timeout_ms: self.settings.idle_timeout_ms,
            jitter_latency: self.settings.jitter_initial_latency_frames,
            dltime: self.dltime,
            streams: self.streams@,
            calls: self.calls@.map_values(|c: ActiveCall| c@),
            decoded_calls: self.decoded_calls,
        }
    }
}

/// One frame of samples from `from` on, as an array.
fn frame_from(pcm: &Vec<i16>, from: usize) -> (r: [i16; PCM_SAMPLES_PER_FRAME])
    requires
        from + PCM_SAMPLES_PER_FRAME <= pcm@.len(),
    ensures
        r@ == pcm@.subrange(from as int, from + PCM_SAMPLES_PER_FRAME),
{
    let len: usize = pcm.len();
    assert(len == pcm@.len());
    let mut r: [i16; PCM_SAMPLES_PER_FRAME] = [0i16; 240];
    let mut i: usize = 0;
    while i < PCM_SAMPLES_PER_FRAME
        invariant
            i <= PCM_SAMPLES_PER_FRAME,
            from + PCM_SAMPLES_PER_FRAME <= pcm@.len(),
            pcm@.len() <= usize::MAX,
            forall|j: int| 0 <= j < i ==> r@[j] == pcm@[from + j],
        decreases PCM_SAMPLES_PER_FRAME - i,
    {
        r[i] = pcm[from + i];
        i = i + 1;
    }
    assert(r@ =~= pcm@.subrange(from as int, from + PCM_SAMPLES_PER_FRAME));
    r
}

impl Core {
    pub fn new(settings: Settings) -> (r: Self)
        ensures
            r@ == (CoreView {
                identity: settings.identity,
                source_issi_base: settings.source_issi_base,
                idle_timeout_ms: settings.idle_timeout_ms,
                jitter_latency: settings.jitter_initial_latency_frames,
                dltime: TdmaTime { h: 0, m: 1, f: 1, t: 1 },
                streams: seq![],
                calls: seq![],
                decoded_calls: 0,
            }),
            r@.linked(),
    {
        let r = Core {
            settings,
            dltime: TdmaTime { h: 0, m: 1, f: 1, t: 1 },
            streams: Vec::new(),
            calls: Vec::new(),
            decoded_calls: 0,
        };
        assert(r@.calls =~= seq![]);
        assert(r@.streams =~= seq![]);
        r
    }

    /// Number of active calls.
    pub fn call_count(&self) -> (n: usize)
        ensures
            n == self@.calls.len(),
    {
        self.calls.len()
    }

    /// Whether a call of this id is active.
    pub fn has_call(&self, uuid: u128) -> (r: bool)
        ensures
            r == (call_index(self@.calls, uuid) is Some),
    {
        self.find_call(uuid).is_some()
    }

    /// Number of calls started.
    pub fn decoded_calls(&self) -> (n: u64)
        ensures
            n == self@.decoded_calls,
    {
        self.decoded_calls
    }

    /// The downlink time moves to `ts`.
    pub fn set_time(&mut self, ts: TdmaTime)
        ensures
            final(self)@ == (CoreView { dltime: ts, ..old(self)@ }),
    {
        self.dltime = ts;
    }

    fn find_stream(&self, id: u32) -> (r: Option<usize>)
        ensures
            match r {
                Some(i) => stream_index(self@.streams, id) == Some(i as int) && i
                    < self@.streams.len() && self@.streams[i as int].0 == id,
                None => stream_index(self@.streams, id) is None,
            },
    {
        let mut i: usize = 0;
        while i < self.streams.len()
            invariant
                i <= self.streams@.len(),
                forall|j: int| 0 <= j < i ==> (#[trigger] self.streams@[j]).0 != id,
            decreases self.streams@.len() - i,
        {
            if self.streams[i].0 == id {
                assert(maps_stream(self@.streams, id, i as int));
                return Some(i);
            }
            i = i + 1;
        }
        None
    }

    fn find_feed(&self, uuid: u128) -> (r: Option<u32>)
        ensures
            r == stream_of(self@.streams, uuid),
    {
        let mut i: usize = 0;
        while i < self.streams.len()
            invariant
                i <= self.streams@.len(),
                forall|j: int| 0 <= j < i ==> (#[trigger] self.streams@[j]).1 != uuid,
            decreases self.streams@.len() - i,
        {
            if self.streams[i].1 == uuid {
                assert(maps_call(self@.streams, uuid, i as int));
                return Some(self.streams[i].0);
            }
            i = i + 1;
        }
        None
    }

    fn find_call(&self, uuid: u128) -> (r: Option<usize>)
        ensures
            match r {
                Some(i) => call_index(self@.calls, uuid) == Some(i as int) && i < self@.calls.len()
                    && self@.calls[i as int].uuid == uuid,
                None => call_index(self@.calls, uuid) is None,
            },
    {
        let mut i: usize = 0;
        while i < self.calls.len()
            invariant
                i <= self.calls@.len(),
                forall|j: int| 0 <= j < i ==> (#[trigger] self@.calls[j]).uuid != uuid,
            decreases self.calls@.len() - i,
        {
            assert(self@.calls[i as int] == self.calls@[i as int]@);
            if self.calls[i].uuid == uuid {
                assert(holds_call(self@.calls, uuid, i as int));
                return Some(i);
            }
            i = i + 1;
        }
        None
    }

    fn find_fed_call(&self, stream_id: u32) -> (r: Option<usize>)
        ensures
            match r {
                Some(i) => self@.fed_call(stream_id) == Some(i as int) && i < self@.calls.len(),
                None => self@.fed_call(stream_id) is None,
            },
    {
        match self.find_stream(stream_id) {
            Some(i) => self.find_call(self.streams[i].1),
            None => None,
        }
    }

    fn map_source_issi(&self, source_id: u32) -> (r: u32)
        ensures
            r == source_issi(self@.source_issi_base, source_id),
    {
        self.settings.source_issi_base.saturating_add(source_id % 1000)
    }

    fn end_msg(&self, brew_uuid: u128) -> (r: SapMsg)
        ensures
            r@ == self@.end_msg(brew_uuid),
    {
        SapMsg::new(
            Sap::Control,
            self.settings.identity,
            TetraEntity::Cmce,
            SapMsgInner::CmceCallControl(CallControl::NetworkCallEnd { brew_uuid }),
        )
    }

    fn start_msg(&self, brew_uuid: u128, source_issi: u32, dest_gssi: u32, priority: u8) -> (r:
        SapMsg)
        ensures
            r@ == self@.start_msg(brew_uuid, source_issi, dest_gssi, priority),
    {
        SapMsg::new(
            Sap::Control,
            self.settings.identity,
            TetraEntity::Cmce,
            SapMsgInner::CmceCallControl(
                CallControl::NetworkCallStart { brew_uuid, source_issi, dest_gssi, priority },
            ),
        )
    }

    /// Handles one frame from the receiver. `is_local` tells which groups are
    /// local to the cell; `encoder_ready` whether a voice encoder can be had for
    /// a new call.
    pub fn handle_frame<F: Fn(u32) -> bool>(
        &mut self,
        frame: FlowDmrFrame,
        is_local: &F,
        encoder_ready: bool,
        now: u128,
        queue: &mut MessageQueue,
    ) -> (r: FrameOutcome)
        requires
            old(self)@.valid(),
            forall|g: u32| call_requires(*is_local, (g,)),
        ensures
            final(self)@.valid(),
            frame@.body matches BodyView::CallStart { source_id, dmr_tg, target_gssi, priority } ==> {
                let step = old(self)@.answered(
                    !(r is Refused),
                    r.started(),
                    frame.stream_id,
                    source_id,
                    target_gssi,
                    priority,
                    now,
                );
                &&& call_ensures(*is_local, (target_gssi,), !(r is Refused))
                &&& !(r is Encode)
                &&& r is Started == (!(r is Refused) && encoder_ready)
                &&& r.started() matches Some(id) ==> is_random_id(id)
                &&& final(self)@ == step.core
                &&& final(queue)@ == old(queue)@ + step.sent
            },
            frame@.body matches BodyView::Voice { seq, flags, pcm } ==> {
                &&& final(self)@ == old(self)@.heard(frame.stream_id, pcm, now)
                &&& final(queue)@ == old(queue)@
                &&& match r {
                    FrameOutcome::Encode(job) => {
                        &&& old(self)@.completes_block(frame.stream_id, pcm)
                        &&& old(self)@.is_job(job, frame.stream_id, pcm)
                    },
                    FrameOutcome::Done => !old(self)@.completes_block(frame.stream_id, pcm),
                    _ => false,
                }
            },
            frame@.body matches BodyView::SrcChange { source_id } ==> {
                let step = old(self)@.talker_changed(frame.stream_id, source_id);
                &&& final(self)@ == step.core
                &&& final(queue)@ == old(queue)@ + step.sent
                &&& r is Done
            },
            frame@.body is CallEnd ==> {
                &&& final(self)@ == old(self)@.ended(frame.stream_id)
                &&& final(queue)@ == old(queue)@
                &&& r is Done
            },
            frame@.body is Keepalive ==> {
                &&& final(self)@ == old(self)@
                &&& final(queue)@ == old(queue)@
                &&& r is Done
            },
    {
        let stream_id = frame.stream_id;
        match frame.body {
            FlowDmrBody::CallStart { source_id, dmr_tg: _, target_gssi, priority } => {
                let local = is_local(target_gssi);
                let started = self.on_call_start(
                    queue,
                    local,
                    encoder_ready,
                    stream_id,
                    source_id,
                    target_gssi,
                    priority,
                    now,
                );
                if !local {
                    return FrameOutcome::Refused;
                }
                match started {
                    Some(uuid) => FrameOutcome::Started(uuid),
                    None => FrameOutcome::Done,
                }
            },
            FlowDmrBody::Voice { seq, flags, pcm } => match self.on_voice(
                stream_id,
                seq,
                flags,
                pcm,
                now,
            ) {
                Some(job) => FrameOutcome::Encode(job),
                None => FrameOutcome::Done,
            },
            FlowDmrBody::SrcChange { source_id } => {
                self.on_src_change(queue, stream_id, source_id);
                FrameOutcome::Done
            },
            FlowDmrBody::CallEnd => {
                self.on_call_end(stream_id);
                FrameOutcome::Done
            },
            FlowDmrBody::Keepalive => FrameOutcome::Done,
        }
    }

    /// A transmission starts: on a local group, with an encoder at hand, a call
    /// is originated under a new random id, which is returned. A call that the
    /// stream already feeds ends first.
    pub fn on_call_start(
        &mut self,
        queue: &mut MessageQueue,
        is_local: bool,
        encoder_ready: bool,
        stream_id: u32,
        source_id: u32,
        target_gssi: u32,
        priority: u8,
        now: u128,
    ) -> (r: Option<u128>)
        requires
            old(self)@.valid(),
        ensures
            final(self)@.valid(),
            r is Some == (is_local && encoder_ready),
            r matches Some(id) ==> is_random_id(id),
            final(self)@ == old(self)@.answered(
                is_local,
                r,
                stream_id,
                source_id,
                target_gssi,
                priority,
                now,
            ).core,
            final(queue)@ == old(queue)@ + old(self)@.answered(
                is_local,
                r,
                stream_id,
                source_id,
                target_gssi,
                priority,
                now,
            ).sent,
    {
        if !is_local {
            assert(queue@ =~= old(queue)@ + Seq::<MsgView>::empty());
            return None;
        }
        if !encoder_ready {
            self.supersede(queue, stream_id);
            return None;
        }
        let uuid = fresh_uuid();
        self.start_call(queue, uuid, stream_id, source_id, target_gssi, priority, now);
        Some(uuid)
    }

    /// Ends the call that a stream feeds.
    fn supersede(&mut self, queue: &mut MessageQueue, stream_id: u32)
        requires
            old(self)@.valid(),
        ensures
            final(self)@.valid(),
            final(self)@ == old(self)@.superseded(stream_id).core,
            final(queue)@ == old(queue)@ + old(self)@.superseded(stream_id).sent,
            stream_index(final(self)@.streams, stream_id) is None,
    {
        match self.find_stream(stream_id) {
            Some(i) => {
                let old_uuid = self.streams[i].1;
                let _ = self.streams.remove(i);
                if let Some(k) = self.find_call(old_uuid) {
                    let _ = self.calls.remove(k);
                    assert(self@.calls =~= old(self)@.calls.remove(k as int));
                } else {
                    assert(self@.calls =~= old(self)@.calls);
                }
                let msg = self.end_msg(old_uuid);
                queue.push_back(msg);
                assert(queue@ =~= old(queue)@ + seq![old(self)@.end_msg(old_uuid)]);
            },
            None => {
                assert(queue@ =~= old(queue)@ + Seq::<MsgView>::empty());
            },
        }
    }

    /// Starts a call on a stream under the given id.
    pub fn start_call(
        &mut self,
        queue: &mut MessageQueue,
        uuid: u128,
        stream_id: u32,
        source_id: u32,
        target_gssi: u32,
        priority: u8,
        now: u128,
    )
        requires
            old(self)@.valid(),
        ensures
            final(self)@.valid(),
            final(self)@ == old(self)@.started(
                uuid,
                stream_id,
                source_id,
                target_gssi,
                priority,
                now,
            ).core,
            final(queue)@ == old(queue)@ + old(self)@.started(
                uuid,
                stream_id,
                source_id,
                target_gssi,
                priority,
                now,
            ).sent,
    {
        self.supersede(queue, stream_id);
        let ghost mid = self@;
        let ghost sent = queue@;
        let source_issi = self.map_source_issi(source_id);
        let call = ActiveCall {
            uuid,
            source_issi,
            dest_gssi: target_gssi,
            priority,
            ts: None,
            created_at: now,
            jitter: VoiceJitterBuffer::with_initial_latency(
                self.settings.jitter_initial_latency_frames,
            ),
            pending_pcm: Vec::with_capacity(SAMPLES_PER_BLOCK),
            last_voice_at: now,
            ending: false,
        };
        assert(call@ == mid.new_call(uuid, source_id, target_gssi, priority, now));
        match self.find_call(uuid) {
            Some(k) => {
                self.calls.set(k, call);
                assert(self@.calls =~= mid.calls.update(k as int, call@));
            },
            None => {
                self.calls.push(call);
                assert(self@.calls =~= mid.calls.push(call@));
            },
        }
        self.streams.push((stream_id, uuid));
        self.decoded_calls = self.decoded_calls.wrapping_add(1);
        let msg = self.start_msg(uuid, source_issi, target_gssi, priority);
        queue.push_back(msg);
        proof {
            assert(self@.streams =~= mid.streams.push((stream_id, uuid)));
            let step = old(self)@.started(uuid, stream_id, source_id, target_gssi, priority, now);
            assert(queue@ =~= old(queue)@ + step.sent);
            assert forall|i: int| 0 <= i < mid.streams.len() implies (
            #[trigger] mid.streams[i]).0 != stream_id by {
                if mid.streams[i].0 == stream_id {
                    lemma_stream_found(mid.streams, stream_id, i);
                }
            }
            assert forall|i: int| 0 <= i < mid.calls.len() && call_index(mid.calls, uuid)
                is None implies (#[trigger] mid.calls[i]).uuid != uuid by {
                if mid.calls[i].uuid == uuid {
                    lemma_call_found(mid.calls, uuid, i);
                }
            }
        }
    }

    /// A 30 ms voice frame comes in. Every second frame of a call completes a
    /// block, which is handed out to be coded.
    pub fn on_voice(
        &mut self,
        stream_id: u32,
        _seq: u32,
        _flags: u16,
        pcm: Vec<i16>,
        now: u128,
    ) -> (r: Option<EncodeJob>)
        requires
            old(self)@.valid(),
        ensures
            final(self)@.valid(),
            final(self)@ == old(self)@.heard(stream_id, pcm@, now),
            r is Some == old(self)@.completes_block(stream_id, pcm@),
            r matches Some(job) ==> old(self)@.is_job(job, stream_id, pcm@),
    {
        let k = match self.find_fed_call(stream_id) {
            Some(k) => k,
            None => return None,
        };
        if pcm.len() != PCM_SAMPLES_PER_FRAME {
            return None;
        }
        let ghost before = self@.calls[k as int];
        assert(before == self.calls@[k as int]@);
        let uuid = self.calls[k].uuid;
        let mut pending: Vec<i16> = Vec::new();
        pending.extend_from_slice(self.calls[k].pending_pcm.as_slice());
        pending.extend_from_slice(pcm.as_slice());
        assert(pending@ =~= before.pending + pcm@);
        let mut job: Option<EncodeJob> = None;
        if pending.len() >= SAMPLES_PER_BLOCK {
            job = Some(
                EncodeJob {
                    uuid,
                    pcm_a: frame_from(&pending, 0),
                    pcm_b: frame_from(&pending, PCM_SAMPLES_PER_FRAME),
                },
            );
            let ghost all = pending@;
            pending = pending.split_off(SAMPLES_PER_BLOCK);
            assert(pending@ =~= all.skip(SAMPLES_PER_BLOCK as int));
        }
        self.calls[k].pending_pcm = pending;
        self.calls[k].last_voice_at = now;
        proof {
            let after = old(self)@.heard(stream_id, pcm@, now);
            assert(self@.calls =~= after.calls);
        }
        job
    }

    /// The two coded frames of an [`EncodeJob`] come back.
    pub fn on_encoded(
        &mut self,
        uuid: u128,
        coded_a: &[u8; CODED_BYTES_PER_FRAME],
        coded_b: &[u8; CODED_BYTES_PER_FRAME],
    )
        requires
            old(self)@.valid(),
        ensures
            final(self)@.valid(),
            final(self)@ == old(self)@.coded(
                uuid,
                crate::codec::joined_block(coded_a@, coded_b@),
            ),
    {
        if let Some(k) = self.find_call(uuid) {
            assert(self@.calls[k as int] == self.calls@[k as int]@);
            let block = join_codec_frames_to_tmd_block(coded_a, coded_b);
            let mut data: Vec<u8> = Vec::new();
            data.extend_from_slice(block.as_slice());
            assert(data@ =~= block@);
            self.calls[k].jitter.push(data);
            proof {
                let after = old(self)@.coded(uuid, block@);
                assert(self@.calls =~= after.calls);
            }
        }
    }

    /// The talker changes: buffered audio of the old one is dropped and the
    /// floor is asked for again.
    pub fn on_src_change(&mut self, queue: &mut MessageQueue, stream_id: u32, source_id: u32)
        requires
            old(self)@.valid(),
        ensures
            final(self)@.valid(),
            final(self)@ == old(self)@.talker_changed(stream_id, source_id).core,
            final(queue)@ == old(queue)@ + old(self)@.talker_changed(stream_id, source_id).sent,
    {
        let ghost none = Seq::<MsgView>::empty();
        let k = match self.find_fed_call(stream_id) {
            Some(k) => k,
            None => {
                assert(queue@ =~= old(queue)@ + none);
                return ;
            },
        };
        assert(self@.calls[k as int] == self.calls@[k as int]@);
        let new_issi = self.map_source_issi(source_id);
        if self.calls[k].source_issi == new_issi {
            assert(queue@ =~= old(queue)@ + none);
            return ;
        }
        let _ = self.calls[k].jitter.flush();
        self.calls[k].source_issi = new_issi;
        self.calls[k].pending_pcm = Vec::new();
        let msg = self.start_msg(
            self.calls[k].uuid,
            new_issi,
            self.calls[k].dest_gssi,
            self.calls[k].priority,
        );
        queue.push_back(msg);
        proof {
            let step = old(self)@.talker_changed(stream_id, source_id);
            assert(self.calls@[k as int]@.pending =~= seq![]);
            assert(self@.calls =~= step.core.calls);
            assert(queue@ =~= old(queue)@ + step.sent);
        }
    }

    /// The transmission ends: the call drains and is then released.
    pub fn on_call_end(&mut self, stream_id: u32)
        requires
            old(self)@.valid(),
        ensures
            final(self)@.valid(),
            final(self)@ == old(self)@.ended(stream_id),
    {
        if let Some(k) = self.find_fed_call(stream_id) {
            assert(self@.calls[k as int] == self.calls@[k as int]@);
            self.calls[k].ending = true;
            assert(self@.calls =~= old(self)@.ended(stream_id).calls);
        }
    }

    /// Paces voice into the downlink, one block per matching timeslot. The
    /// control frame carries no traffic.
    pub fn playout(&mut self, now: u128, queue: &mut MessageQueue)
        requires
            old(self)@.valid(),
        ensures
            final(self)@.valid(),
            final(self)@ == old(self)@.played(now).core,
            final(queue)@ == old(queue)@ + old(self)@.played(now).sent,
    {
        if self.dltime.f == CONTROL_FRAME {
            assert(queue@ =~= old(queue)@ + Seq::<MsgView>::empty());
            return ;
        }
        let slot = self.dltime.t;
        let idle = self.settings.idle_timeout_ms;
        let total: usize = self.calls.len();
        let mut blocks: Vec<(u8, Vec<u8>)> = Vec::new();
        let mut released: Vec<(u32, u128)> = Vec::new();
        let mut i: usize = 0;
        let mut seen: usize = 0;
        let ghost start = self@;
        let ghost blocks_view = |b: (u8, Vec<u8>)| (b.0, b.1@);
        assert(start.calls.take(0) =~= seq![]);
        assert(start.calls.skip(0) =~= start.calls);
        assert(blocks@.map_values(blocks_view) =~= seq![]);
        while seen < total
            invariant
                seen <= total,
                total == start.calls.len(),
                start.valid(),
                slot == start.dltime.t,
                idle == start.idle_timeout_ms,
                self@ == (CoreView { calls: self@.calls, ..start }),
                blocks_view == (|b: (u8, Vec<u8>)| (b.0, b.1@)),
                i == playout_of(
                    start.calls.take(seen as int),
                    start.streams,
                    slot,
                    idle,
                    now,
                ).kept.len(),
                i + (total - seen) == self.calls@.len(),
                i <= seen,
                self@.calls == playout_of(
                    start.calls.take(seen as int),
                    start.streams,
                    slot,
                    idle,
                    now,
                ).kept + start.calls.skip(seen as int),
                forall|j: int|
                    0 <= j < i ==> (#[trigger] playout_of(
                        start.calls.take(seen as int),
                        start.streams,
                        slot,
                        idle,
                        now,
                    ).kept[j]).valid(),
                blocks@.map_values(blocks_view) == playout_of(
                    start.calls.take(seen as int),
                    start.streams,
                    slot,
                    idle,
                    now,
                ).blocks,
                released@ == playout_of(
                    start.calls.take(seen as int),
                    start.streams,
                    slot,
                    idle,
                    now,
                ).released,
            decreases total - seen,
        {
            let ghost before = playout_of(
                start.calls.take(seen as int),
                start.streams,
                slot,
                idle,
                now,
            );
            let ghost next = playout_of(
                start.calls.take(seen + 1),
                start.streams,
                slot,
                idle,
                now,
            );
            let ghost call = start.calls[seen as int];
            let ghost here = self@.calls;
            proof {
                assert(start.calls.take(seen + 1).drop_last() =~= start.calls.take(seen as int));
                assert(start.calls.take(seen + 1).last() == call);
                assert(here[i as int] == call);
                assert(self.calls@[i as int]@ == call);
            }
            let uuid = self.calls[i].uuid;
            let stream = self.find_feed(uuid);
            let (block, done) = self.calls[i].play(slot, idle, now);
            let ghost p = call.played(slot, idle, now);
            assert(self@.calls =~= here.update(i as int, p.call));
            let ghost held = blocks@;
            match block {
                Some(b) => {
                    blocks.push((slot, b));
                    assert(blocks@.map_values(blocks_view) =~= held.map_values(blocks_view).push(
                        (slot, b@),
                    ));
                },
                None => {},
            }
            let mut gone: bool = false;
            if done {
                if let Some(s) = stream {
                    gone = true;
                    released.push((s, uuid));
                }
            }
            if gone {
                let _ = self.calls.remove(i);
                assert(self@.calls =~= here.update(i as int, p.call).remove(i as int));
                assert(self@.calls =~= next.kept + start.calls.skip(seen + 1));
            } else {
                i = i + 1;
                assert(self@.calls =~= next.kept + start.calls.skip(seen + 1));
                assert forall|j: int| 0 <= j < i implies (#[trigger] next.kept[j]).valid() by {
                    if j < before.kept.len() {
                        assert(next.kept[j] == before.kept[j]);
                    }
                }
            }
            seen = seen + 1;
        }
        assert(start.calls.take(total as int) =~= start.calls);
        assert(start.calls.skip(total as int) =~= seq![]);
        let ghost p = playout_of(start.calls, start.streams, slot, idle, now);
        assert(self@.calls =~= p.kept);
        proof {
            lemma_kept_names(start.calls, start.streams, slot, idle, now);
        }
        self.send_voice(&blocks, queue);
        let ghost voiced = queue@;
        self.release(&released, queue);
        proof {
            let step = start.played(now);
            let voice = |b: (u8, Seq<u8>)| crate::sap::voice_msg(start.identity, b.0, b.1);
            assert(p.blocks.map_values(voice) =~= Seq::new(
                blocks@.len(),
                |k: int| crate::sap::voice_msg(start.identity, blocks@[k].0, blocks@[k].1@),
            )) by {
                assert forall|k: int| 0 <= k < blocks@.len() implies p.blocks[k] == (
                    blocks@[k].0,
                    blocks@[k].1@,
                ) by {
                    assert(blocks@.map_values(blocks_view)[k] == p.blocks[k]);
                }
            }
            let ends = |r: (u32, u128)| start.end_msg(r.1);
            assert(queue@ =~= old(queue)@ + step.sent);
        }
    }

    fn send_voice(&self, blocks: &Vec<(u8, Vec<u8>)>, queue: &mut MessageQueue)
        ensures
            final(queue)@ == old(queue)@ + Seq::new(
                blocks@.len(),
                |k: int| crate::sap::voice_msg(self@.identity, blocks@[k].0, blocks@[k].1@),
            ),
    {
        let ghost all = Seq::new(
            blocks@.len(),
            |k: int| crate::sap::voice_msg(self@.identity, blocks@[k].0, blocks@[k].1@),
        );
        let mut i: usize = 0;
        assert(queue@ =~= old(queue)@ + all.take(0));
        while i < blocks.len()
            invariant
                i <= blocks@.len(),
                all == Seq::new(
                    blocks@.len(),
                    |k: int| crate::sap::voice_msg(self@.identity, blocks@[k].0, blocks@[k].1@),
                ),
                queue@ == old(queue)@ + all.take(i as int),
            decreases blocks@.len() - i,
        {
            let mut data: Vec<u8> = Vec::new();
            data.extend_from_slice(blocks[i].1.as_slice());
            assert(data@ =~= blocks@[i as int].1@);
            let msg = SapMsg::new(
                Sap::TmdSap,
                self.settings.identity,
                TetraEntity::Umac,
                SapMsgInner::TmdCircuitDataReq(TmdCircuitDataReq { ts: blocks[i].0, data }),
            );
            queue.push_back(msg);
            i = i + 1;
            assert(queue@ =~= old(queue)@ + all.take(i as int));
        }
        assert(all.take(i as int) =~= all);
    }

    fn release(&mut self, released: &Vec<(u32, u128)>, queue: &mut MessageQueue)
        requires
            old(self)@.valid(),
        ensures
            final(self)@.valid(),
            final(self)@ == (CoreView {
                streams: without_released(old(self)@.streams, released@),
                ..old(self)@
            }),
            final(queue)@ == old(queue)@ + released@.map_values(
                |r: (u32, u128)| old(self)@.end_msg(r.1),
            ),
    {
        let ghost start = self@;
        let ghost all = released@.map_values(|r: (u32, u128)| start.end_msg(r.1));
        let mut i: usize = 0;
        assert(queue@ =~= old(queue)@ + all.take(0));
        assert(released@.take(0) =~= seq![]);
        while i < released.len()
            invariant
                i <= released@.len(),
                self@.valid(),
                self.calls == old(self).calls,
                self@ == (CoreView {
                    streams: without_released(start.streams, released@.take(i as int)),
                    ..start
                }),
                all == released@.map_values(|r: (u32, u128)| start.end_msg(r.1)),
                queue@ == old(queue)@ + all.take(i as int),
            decreases released@.len() - i,
        {
            assert(released@.take(i + 1).drop_last() =~= released@.take(i as int));
            assert(released@.take(i + 1).last() == released@[i as int]);
            if let Some(k) = self.find_stream(released[i].0) {
                let _ = self.streams.remove(k);
            }
            let msg = self.end_msg(released[i].1);
            queue.push_back(msg);
            i = i + 1;
            assert(queue@ =~= old(queue)@ + all.take(i as int));
        }
        assert(all.take(i as int) =~= all);
        assert(released@.take(i as int) =~= released@);
    }

    /// CMCE reports the resources of a call. One that is not known is released.
    pub fn on_network_call_ready(
        &mut self,
        queue: &mut MessageQueue,
        brew_uuid: u128,
        _call_id: u16,
        ts: u8,
        _usage: u8,
    )
        requires
            old(self)@.valid(),
        ensures
            final(self)@.valid(),
            final(self)@ == old(self)@.allocated(brew_uuid, ts).core,
            final(queue)@ == old(queue)@ + old(self)@.allocated(brew_uuid, ts).sent,
    {
        match self.find_call(brew_uuid) {
            Some(k) => {
                assert(self@.calls[k as int] == self.calls@[k as int]@);
                self.calls[k].ts = Some(ts);
                assert(self@.calls =~= old(self)@.allocated(brew_uuid, ts).core.calls);
                assert(queue@ =~= old(queue)@ + Seq::<MsgView>::empty());
            },
            None => {
                let msg = self.end_msg(brew_uuid);
                queue.push_back(msg);
                assert(queue@ =~= old(queue)@ + seq![old(self)@.end_msg(brew_uuid)]);
            },
        }
    }

    /// CMCE has ended a call: it is forgotten, and what feeds it too.
    pub fn on_network_call_end(&mut self, brew_uuid: u128)
        requires
            old(self)@.valid(),
        ensures
            final(self)@.valid(),
            final(self)@ == old(self)@.torn_down(brew_uuid),
    {
        let k = match self.find_call(brew_uuid) {
            Some(k) => k,
            None => return ,
        };
        let _ = self.calls.remove(k);
        assert(self@.calls =~= old(self)@.calls.remove(k as int));
        let ghost start = self.streams@;
        let ghost keep = feeds_other(brew_uuid);
        let mut kept: Vec<(u32, u128)> = Vec::new();
        let mut i: usize = 0;
        proof {
            reveal(Seq::filter);
            assert(start.take(0) =~= seq![]);
        }
        while i < self.streams.len()
            invariant
                i <= self.streams@.len(),
                self.streams@ == start,
                keep == feeds_other(brew_uuid),
                kept@ == start.take(i as int).filter(keep),
            decreases self.streams@.len() - i,
        {
            proof {
                reveal(Seq::filter);
                assert(start.take(i + 1).drop_last() =~= start.take(i as int));
                assert(start.take(i + 1).last() == start[i as int]);
            }
            if self.streams[i].1 != brew_uuid {
                kept.push(self.streams[i]);
            }
            i = i + 1;
        }
        assert(start.take(i as int) =~= start);
        self.streams = kept;
        proof {
            assert(self@.streams == without_feeds(old(self)@.streams, brew_uuid));
            assert(self@.calls == old(self)@.torn_down(brew_uuid).calls);
            lemma_filter_keeps_names(start, keep);
        }
    }

    /// Handles a primitive from the stack.
    pub fn rx_prim(&mut self, queue: &mut MessageQueue, message: SapMsg)
        requires
            old(self)@.valid(),
        ensures
            final(self)@.valid(),
            final(self)@ == old(self)@.received(message@.msg).core,
            final(queue)@ == old(queue)@ + old(self)@.received(message@.msg).sent,
    {
        match message.msg {
            SapMsgInner::CmceCallControl(
                CallControl::NetworkCallReady { brew_uuid, call_id, ts, usage },
            ) => {
                self.on_network_call_ready(queue, brew_uuid, call_id, ts, usage);
            },
            SapMsgInner::CmceCallControl(CallControl::NetworkCallEnd { brew_uuid }) => {
                self.on_network_call_end(brew_uuid);
                assert(queue@ =~= old(queue)@ + Seq::<MsgView>::empty());
            },
            _ => {
                assert(queue@ =~= old(queue)@ + Seq::<MsgView>::empty());
            },
        }
    }
}

impl CoreView {
    /// Whether `job` is the block that a voice frame completes.
    pub open spec fn is_job(self, job: EncodeJob, stream_id: u32, pcm: Seq<i16>) -> bool {
        &&& uuid_of(self.streams, stream_id) == Some(job.uuid)
        &&& job.pcm_a@ == self.gathered(stream_id, pcm).subrange(0, 240)
        &&& job.pcm_b@ == self.gathered(stream_id, pcm).subrange(240, 480)
    }
}

/// A call that is there is found.
pub(crate) proof fn lemma_call_found(calls: Seq<CallView>, uuid: u128, i: int)
    requires
        0 <= i < calls.len(),
        calls[i].uuid == uuid,
    ensures
        call_index(calls, uuid) is Some,
    decreases i,
{
    if exists|j: int| 0 <= j < i && (#[trigger] calls[j]).uuid == uuid {
        let j = choose|j: int| 0 <= j < i && (#[trigger] calls[j]).uuid == uuid;
        lemma_call_found(calls, uuid, j);
    } else {
        assert(holds_call(calls, uuid, i));
    }
}

/// A stream that has an entry is found.
pub(crate) proof fn lemma_stream_found(streams: Seq<(u32, u128)>, id: u32, i: int)
    requires
        0 <= i < streams.len(),
        streams[i].0 == id,
    ensures
        stream_index(streams, id) is Some,
    decreases i,
{
    if exists|j: int| 0 <= j < i && (#[trigger] streams[j]).0 == id {
        let j = choose|j: int| 0 <= j < i && (#[trigger] streams[j]).0 == id;
        lemma_stream_found(streams, id, j);
    } else {
        assert(maps_stream(streams, id, i));
    }
}

/// A call that is fed has its stream found.
pub(crate) proof fn lemma_feed_found(streams: Seq<(u32, u128)>, uuid: u128, i: int)
    requires
        0 <= i < streams.len(),
        streams[i].1 == uuid,
    ensures
        stream_of(streams, uuid) is Some,
    decreases i,
{
    if exists|j: int| 0 <= j < i && (#[trigger] streams[j]).1 == uuid {
        let j = choose|j: int| 0 <= j < i && (#[trigger] streams[j]).1 == uuid;
        lemma_feed_found(streams, uuid, j);
    } else {
        assert(maps_call(streams, uuid, i));
    }
}

/// The calls that stay after a tick are calls that were there, each once.
pub(crate) proof fn lemma_kept_names(
    calls: Seq<CallView>,
    streams: Seq<(u32, u128)>,
    slot: u8,
    idle: u64,
    now: u128,
)
    requires
        forall|i: int, j: int|
            0 <= i < j < calls.len() ==> (#[trigger] calls[i]).uuid != (#[trigger] calls[j]).uuid,
    ensures
        ({
            let kept = playout_of(calls, streams, slot, idle, now).kept;
            &&& forall|i: int|
                0 <= i < kept.len() ==> exists|k: int|
                    0 <= k < calls.len() && (#[trigger] calls[k]).uuid == (
                    #[trigger] kept[i]).uuid
            &&& forall|i: int, j: int|
                0 <= i < j < kept.len() ==> (#[trigger] kept[i]).uuid != (#[trigger] kept[j]).uuid
        }),
    decreases calls.len(),
{
    if calls.len() > 0 {
        let front = calls.drop_last();
        lemma_kept_names(front, streams, slot, idle, now);
        let before = playout_of(front, streams, slot, idle, now).kept;
        let kept = playout_of(calls, streams, slot, idle, now).kept;
        let last = calls.len() - 1;
        assert(calls.last().played(slot, idle, now).call.uuid == calls[last].uuid);
        assert forall|i: int| 0 <= i < kept.len() implies exists|k: int|
            0 <= k < calls.len() && (#[trigger] calls[k]).uuid == (#[trigger] kept[i]).uuid by {
            if i < before.len() {
                let k = choose|k: int|
                    0 <= k < front.len() && (#[trigger] front[k]).uuid == before[i].uuid;
                assert(calls[k].uuid == kept[i].uuid);
            } else {
                assert(calls[last].uuid == kept[i].uuid);
            }
        }
        assert forall|i: int, j: int| 0 <= i < j < kept.len() implies (#[trigger] kept[i]).uuid
            != (#[trigger] kept[j]).uuid by {
            let k = choose|k: int|
                0 <= k < front.len() && (#[trigger] front[k]).uuid == before[i].uuid;
            assert(calls[k] == front[k]);
        }
    }
}

pub(crate) proof fn lemma_filter_keeps_names(
    streams: Seq<(u32, u128)>,
    keep: spec_fn((u32, u128)) -> bool,
)
    requires
        forall|i: int, j: int|
            0 <= i < j < streams.len() ==> (#[trigger] streams[i]).0 != (#[trigger] streams[j]).0,
    ensures
        ({
            let kept = streams.filter(keep);
            &&& forall|i: int|
                0 <= i < kept.len() ==> keep(#[trigger] kept[i]) && exists|k: int|
                    0 <= k < streams.len() && #[trigger] streams[k] == kept[i]
            &&& forall|i: int, j: int|
                0 <= i < j < kept.len() ==> (#[trigger] kept[i]).0 != (#[trigger] kept[j]).0
        }),
    decreases streams.len(),
{
    reveal(Seq::filter);
    if streams.len() > 0 {
        let front = streams.drop_last();
        lemma_filter_keeps_names(front, keep);
        let before = front.filter(keep);
        let kept = streams.filter(keep);
        let last = streams.len() - 1;
        assert forall|i: int| 0 <= i < kept.len() implies keep(#[trigger] kept[i]) && exists|k: int|
            0 <= k < streams.len() && #[trigger] streams[k] == kept[i] by {
            if i < before.len() {
                let k = choose|k: int| 0 <= k < front.len() && #[trigger] front[k] == before[i];
                assert(streams[k] == kept[i]);
            } else {
                assert(streams[last] == kept[i]);
            }
        }
        assert forall|i: int, j: int| 0 <= i < j < kept.len() implies (#[trigger] kept[i]).0 != (
        #[trigger] kept[j]).0 by {
            let k = choose|k: int| 0 <= k < front.len() && #[trigger] front[k] == before[i];
            assert(streams[k] == front[k]);
        }
    }
}

/// A variable that holds a number is read as it, and any other, or none, stands for
/// the default.
pub proof fn law_variables_have_defaults(s: String, n: nat, default: u64)
    ensures
        number_or(None, default) == default,
        s@ == crate::text::decimal(n) && n <= u64::MAX ==> number_or(Some(s), default) == n,
        s@ == crate::text::decimal(n) && n > u64::MAX ==> number_or(Some(s), default) == default,
        s@.len() == 0 ==> number_or(Some(s), default) == default,
        s@.len() > 0 && !crate::text::is_digit(s@[0]) && s@[0] != '+' ==> number_or(
            Some(s),
            default,
        ) == default,
{
    crate::text::law_numbers_are_read_up_to_the_limit(n, u64::MAX as nat);
    crate::text::law_what_is_no_number_is_refused(s@, 0, u64::MAX as nat);
}

/// The settings are what the variables say, each for itself, and the documented
/// defaults where they say nothing.
pub proof fn law_settings_follow_the_variables(
    listen: Option<String>,
    base: Option<String>,
    idle: Option<String>,
    jitter: Option<String>,
    n: nat,
)
    requires
        n <= u32::MAX,
    ensures
        ({
            let s = settings_of(listen, base, idle, jitter);
            &&& listen matches Some(text) ==> s.listen == text@
            &&& listen is None ==> s.listen == "127.0.0.1:23471"@
            &&& base is None ==> s.source_issi_base == 9_000_000
            &&& idle is None ==> s.idle_timeout_ms == 1800
            &&& jitter is None ==> s.jitter_initial_latency_frames == 2
            &&& base matches Some(text) ==> (text@ == crate::text::decimal(n)
                ==> s.source_issi_base == n)
            &&& idle matches Some(text) ==> (text@ == crate::text::decimal(n) ==> s.idle_timeout_ms
                == n)
            &&& jitter matches Some(text) ==> (text@ == crate::text::decimal(n)
                ==> s.jitter_initial_latency_frames == n)
        }),
{
    if base is Some {
        law_variables_have_defaults(base->0, n, 9_000_000);
    }
    if idle is Some {
        law_variables_have_defaults(idle->0, n, 1800);
    }
    if jitter is Some {
        law_variables_have_defaults(jitter->0, n, 2);
    }
}

} // verus!
