use flowdmr::codec::{Vocoder, TMD_PACKED_BYTES};
use flowdmr::entity::{Core, FrameOutcome, Settings, SELF_ENTITY};
use flowdmr::ipc::{FlowDmrBody, FlowDmrFrame, PCM_SAMPLES_PER_FRAME};
use flowdmr::sap::{
    CallControl, MessageQueue, Sap, SapMsg, SapMsgInner, TdmaTime, TetraEntity, TmdCircuitDataReq,
};

fn settings() -> Settings {
    Settings {
        listen: "127.0.0.1:0".into(),
        identity: SELF_ENTITY,
        source_issi_base: 9_000_000,
        idle_timeout_ms: 1800,
        jitter_initial_latency_frames: 0, // release immediately for deterministic tests
    }
}

// Pull every queued SapMsg out for assertions.
fn drain(queue: &mut MessageQueue) -> Vec<SapMsg> {
    let mut out = Vec::new();
    while let Some(m) = queue.pop_front() {
        out.push(m);
    }
    out
}

fn local(g: u32) -> bool {
    (5000..=5999).contains(&g)
}

fn handle(core: &mut Core, frame: FlowDmrFrame, now: u128, q: &mut MessageQueue) -> FrameOutcome {
    core.handle_frame(frame, &local, true, now, q)
}

// Voice, coded by the silent vocoder as the entity does it.
fn on_voice(core: &mut Core, stream: u32, seq: u32, flags: u16, pcm: Vec<i16>) {
    if let Some(job) = core.on_voice(stream, seq, flags, pcm, 0) {
        let mut v = Vocoder::new().unwrap();
        let a = v.encode_frame(&job.pcm_a);
        let b = v.encode_frame(&job.pcm_b);
        core.on_encoded(job.uuid, &a, &b);
    }
}

fn start(core: &mut Core, q: &mut MessageQueue, stream: u32, source_id: u32, gssi: u32, now: u128) -> u128 {
    let f = FlowDmrFrame::new(
        stream,
        FlowDmrBody::CallStart { source_id, dmr_tg: 9, target_gssi: gssi, priority: 3 },
    );
    match handle(core, f, now, q) {
        FrameOutcome::Started(uuid) => uuid,
        _ => panic!("no call"),
    }
}

#[test]
fn call_start_emits_network_call_start_to_cmce() {
    let mut core = Core::new(settings());
    let mut q = MessageQueue::new();
    handle(
        &mut core,
        FlowDmrFrame::new(1, FlowDmrBody::CallStart { source_id: 2_604_123, dmr_tg: 9, target_gssi: 5000, priority: 0 }),
        0,
        &mut q,
    );
    let msgs = drain(&mut q);
    assert_eq!(msgs.len(), 1);
    match &msgs[0].msg {
        SapMsgInner::CmceCallControl(CallControl::NetworkCallStart { source_issi, dest_gssi, .. }) => {
            assert_eq!(*dest_gssi, 5000);
            assert_eq!(*source_issi, 9_000_000 + 123); // base + src%1000
        }
        other => panic!("expected NetworkCallStart, got {other:?}"),
    }
    assert_eq!(*msgs[0].get_dest(), TetraEntity::Cmce);
    assert_eq!(*msgs[0].get_source(), SELF_ENTITY);
}

#[test]
fn non_local_gssi_is_refused() {
    let mut core = Core::new(settings());
    let mut q = MessageQueue::new();
    handle(
        &mut core,
        // 1234 is NOT in 5000..=5999
        FlowDmrFrame::new(1, FlowDmrBody::CallStart { source_id: 1, dmr_tg: 9, target_gssi: 1234, priority: 0 }),
        0,
        &mut q,
    );
    assert!(drain(&mut q).is_empty(), "non-local GSSI must emit nothing (never reaches Brew)");
    assert!(core.call_count() == 0);
}

#[test]
fn full_sequence_start_voice_end() {
    let mut core = Core::new(settings());
    let mut q = MessageQueue::new();

    // 1) CallStart -> NetworkCallStart
    handle(
        &mut core,
        FlowDmrFrame::new(7, FlowDmrBody::CallStart { source_id: 5, dmr_tg: 9, target_gssi: 5001, priority: 0 }),
        0,
        &mut q,
    );
    let uuid = match &drain(&mut q)[0].msg {
        SapMsgInner::CmceCallControl(CallControl::NetworkCallStart { brew_uuid, .. }) => *brew_uuid,
        _ => panic!("no NetworkCallStart"),
    };

    // 2) CMCE allocates resources on ts=2.
    core.on_network_call_ready(&mut q, uuid, 0x100, 2, 0);
    assert!(drain(&mut q).is_empty());

    // 3) Feed enough voice to clear the jitter priming threshold.
    // 10 x 30ms frames = 5 x 60ms ACELP blocks (>= BASE_FRAMES priming depth).
    for seq in 0..10 {
        on_voice(&mut core, 7, seq, 0, vec![0i16; PCM_SAMPLES_PER_FRAME]);
    }

    // 4) Playout on the matching timeslot (jitter latency 0) yields TmdCircuitDataReq.
    core.set_time(TdmaTime { t: 2, f: 1, m: 1, h: 0 });
    core.playout(0, &mut q);
    let msgs = drain(&mut q);
    assert!(
        msgs.iter().any(|m| matches!(m.msg, SapMsgInner::TmdCircuitDataReq(_)) && *m.get_dest() == TetraEntity::Umac),
        "expected a TmdCircuitDataReq to UMAC, got {msgs:?}"
    );
    if let Some(SapMsg { msg: SapMsgInner::TmdCircuitDataReq(req), .. }) =
        msgs.iter().find(|m| matches!(m.msg, SapMsgInner::TmdCircuitDataReq(_)))
    {
        assert_eq!(req.ts, 2);
        assert_eq!(req.data.len(), TMD_PACKED_BYTES); // 35-byte ACELP block
    }

    // 5) Wrong timeslot emits nothing.
    core.set_time(TdmaTime { t: 3, f: 1, m: 1, h: 0 });
    core.playout(0, &mut q);
    assert!(drain(&mut q).iter().all(|m| !matches!(m.msg, SapMsgInner::TmdCircuitDataReq(_))));

    // 6) Frame 18 carries no traffic.
    core.set_time(TdmaTime { t: 2, f: 18, m: 1, h: 0 });
    on_voice(&mut core, 7, 99, 0, vec![0i16; PCM_SAMPLES_PER_FRAME]);
    on_voice(&mut core, 7, 100, 0, vec![0i16; PCM_SAMPLES_PER_FRAME]);
    core.playout(0, &mut q);
    assert!(drain(&mut q).is_empty(), "frame 18 must not play out");

    // 7) CallEnd -> drain remaining -> NetworkCallEnd, then call removed.
    core.on_call_end(7);
    core.set_time(TdmaTime { t: 2, f: 1, m: 1, h: 0 });
    let mut saw_end = false;
    for _ in 0..50 {
        core.playout(0, &mut q);
        for m in drain(&mut q) {
            if matches!(m.msg, SapMsgInner::CmceCallControl(CallControl::NetworkCallEnd { .. })) {
                saw_end = true;
            }
        }
        if core.call_count() == 0 {
            break;
        }
    }
    assert!(saw_end, "expected NetworkCallEnd after draining");
    assert!(core.call_count() == 0, "call must be removed after end");
}

#[test]
fn talker_change_reissues_call_start_with_new_issi() {
    let mut core = Core::new(settings());
    let mut q = MessageQueue::new();
    handle(
        &mut core,
        FlowDmrFrame::new(3, FlowDmrBody::CallStart { source_id: 10, dmr_tg: 9, target_gssi: 5002, priority: 0 }),
        0,
        &mut q,
    );
    drain(&mut q);
    core.on_src_change(&mut q, 3, 20);
    let msgs = drain(&mut q);
    match &msgs[0].msg {
        SapMsgInner::CmceCallControl(CallControl::NetworkCallStart { source_issi, .. }) => {
            assert_eq!(*source_issi, 9_000_000 + 20);
        }
        other => panic!("expected re-issued NetworkCallStart, got {other:?}"),
    }
}

#[test]
fn voice_for_unknown_stream_is_dropped() {
    let mut core = Core::new(settings());
    let mut q = MessageQueue::new();
    on_voice(&mut core, 999, 0, 0, vec![0i16; PCM_SAMPLES_PER_FRAME]);
    core.set_time(TdmaTime { t: 1, f: 1, m: 1, h: 0 });
    core.playout(0, &mut q);
    assert!(drain(&mut q).is_empty());
}

#[test]
fn ids_are_random_uuids_of_version_4() {
    let mut core = Core::new(settings());
    let mut q = MessageQueue::new();
    let a = start(&mut core, &mut q, 1, 1, 5000, 0);
    let b = start(&mut core, &mut q, 2, 1, 5000, 0);
    assert_ne!(a, b);
    for id in [a, b] {
        let u = uuid::Uuid::from_u128(id);
        assert_eq!(u.get_version_num(), 4);
        assert_eq!(u.get_variant(), uuid::Variant::RFC4122);
    }
    assert_eq!(core.call_count(), 2);
    assert_eq!(core.decoded_calls(), 2);
    assert!(core.has_call(a) && core.has_call(b));
}

#[test]
fn restart_of_a_stream_ends_its_call_first() {
    let mut core = Core::new(settings());
    let mut q = MessageQueue::new();
    let old = start(&mut core, &mut q, 1, 1, 5000, 0);
    drain(&mut q);
    let new = start(&mut core, &mut q, 1, 2, 5000, 0);
    let msgs = drain(&mut q);
    assert_eq!(msgs.len(), 2);
    assert_eq!(msgs[0].msg, SapMsgInner::CmceCallControl(CallControl::NetworkCallEnd { brew_uuid: old }));
    assert_eq!(
        msgs[1].msg,
        SapMsgInner::CmceCallControl(CallControl::NetworkCallStart {
            brew_uuid: new,
            source_issi: 9_000_002,
            dest_gssi: 5000,
            priority: 3
        })
    );
    assert_eq!(core.call_count(), 1);
}

#[test]
fn no_encoder_no_call_but_the_old_one_ends() {
    let mut core = Core::new(settings());
    let mut q = MessageQueue::new();
    let old = start(&mut core, &mut q, 1, 1, 5000, 0);
    drain(&mut q);
    let f = FlowDmrFrame::new(1, FlowDmrBody::CallStart { source_id: 2, dmr_tg: 9, target_gssi: 5000, priority: 0 });
    let r = core.handle_frame(f, &local, false, 0, &mut q);
    assert!(matches!(r, FrameOutcome::Done));
    let msgs = drain(&mut q);
    assert_eq!(msgs.len(), 1);
    assert_eq!(msgs[0].msg, SapMsgInner::CmceCallControl(CallControl::NetworkCallEnd { brew_uuid: old }));
    assert_eq!(core.call_count(), 0);
}

#[test]
fn refused_group_leaves_the_call_of_the_stream_alone() {
    let mut core = Core::new(settings());
    let mut q = MessageQueue::new();
    let old = start(&mut core, &mut q, 1, 1, 5000, 0);
    drain(&mut q);
    let f = FlowDmrFrame::new(1, FlowDmrBody::CallStart { source_id: 2, dmr_tg: 9, target_gssi: 6000, priority: 0 });
    assert!(matches!(handle(&mut core, f, 0, &mut q), FrameOutcome::Refused));
    assert!(drain(&mut q).is_empty());
    assert!(core.has_call(old));
}

#[test]
fn two_frames_make_a_block_for_the_encoder() {
    let mut core = Core::new(settings());
    let mut q = MessageQueue::new();
    let id = start(&mut core, &mut q, 1, 1, 5000, 0);
    assert!(core.on_voice(1, 0, 0, vec![11; 240], 0).is_none());
    assert!(core.on_voice(1, 1, 0, vec![22; 239], 0).is_none(), "wrong size is dropped");
    let job = core.on_voice(1, 2, 0, vec![22; 240], 0).unwrap();
    assert_eq!(job.uuid, id);
    assert_eq!(job.pcm_a, [11i16; 240]);
    assert_eq!(job.pcm_b, [22i16; 240]);
    assert!(core.on_voice(1, 3, 0, vec![33; 240], 0).is_none());
}

#[test]
fn ending_call_plays_every_block_in_order() {
    let mut core = Core::new(settings());
    let mut q = MessageQueue::new();
    let id = start(&mut core, &mut q, 1, 1, 5000, 0);
    core.on_network_call_ready(&mut q, id, 1, 3, 0);
    drain(&mut q);
    for k in 0..3u8 {
        core.on_encoded(id, &[k << 4; 18], &[0u8; 18]);
    }
    core.on_call_end(1);
    core.set_time(TdmaTime { t: 3, f: 2, m: 1, h: 0 });
    for k in 0..3u8 {
        core.playout(0, &mut q);
        let msgs = drain(&mut q);
        assert_eq!(msgs.len(), 1);
        assert_eq!(msgs[0].sap, Sap::TmdSap);
        match &msgs[0].msg {
            SapMsgInner::TmdCircuitDataReq(TmdCircuitDataReq { ts, data }) => {
                assert_eq!(*ts, 3);
                assert_eq!(data[0], k << 4);
            }
            other => panic!("expected voice, got {other:?}"),
        }
        assert!(core.has_call(id));
    }
    core.playout(0, &mut q);
    let msgs = drain(&mut q);
    assert_eq!(msgs.len(), 1);
    assert_eq!(msgs[0].msg, SapMsgInner::CmceCallControl(CallControl::NetworkCallEnd { brew_uuid: id }));
    assert!(!core.has_call(id));
}

#[test]
fn call_without_resources_is_given_up_after_five_seconds() {
    let mut core = Core::new(settings());
    let mut q = MessageQueue::new();
    let id = start(&mut core, &mut q, 1, 1, 5000, 1_000);
    drain(&mut q);
    core.playout(5_000_001_000, &mut q);
    assert!(core.has_call(id) && drain(&mut q).is_empty());
    core.playout(5_000_001_001, &mut q);
    assert_eq!(drain(&mut q).len(), 1);
    assert!(!core.has_call(id));
}

#[test]
fn silent_call_ends_after_the_idle_timeout() {
    let mut core = Core::new(settings());
    let mut q = MessageQueue::new();
    let id = start(&mut core, &mut q, 1, 1, 5000, 0);
    core.on_network_call_ready(&mut q, id, 1, 2, 0);
    drain(&mut q);
    core.set_time(TdmaTime { t: 2, f: 1, m: 1, h: 0 });
    core.playout(1_800_000_000, &mut q);
    assert!(core.has_call(id));
    core.playout(1_800_000_001, &mut q);
    assert!(!core.has_call(id));
    assert_eq!(drain(&mut q).len(), 1);
}

#[test]
fn orphan_is_released_and_an_end_from_cmce_is_final() {
    let mut core = Core::new(settings());
    let mut q = MessageQueue::new();
    let ready = SapMsg::new(
        Sap::Control,
        TetraEntity::Cmce,
        SELF_ENTITY,
        SapMsgInner::CmceCallControl(CallControl::NetworkCallReady { brew_uuid: 77, call_id: 1, ts: 2, usage: 0 }),
    );
    core.rx_prim(&mut q, ready);
    let msgs = drain(&mut q);
    assert_eq!(msgs[0].msg, SapMsgInner::CmceCallControl(CallControl::NetworkCallEnd { brew_uuid: 77 }));

    let id = start(&mut core, &mut q, 1, 1, 5000, 0);
    drain(&mut q);
    let end = SapMsg::new(
        Sap::Control,
        TetraEntity::Cmce,
        SELF_ENTITY,
        SapMsgInner::CmceCallControl(CallControl::NetworkCallEnd { brew_uuid: id }),
    );
    core.rx_prim(&mut q, end);
    assert!(drain(&mut q).is_empty());
    assert_eq!(core.call_count(), 0);
    assert!(core.on_voice(1, 0, 0, vec![0; 240], 0).is_none());
    core.rx_prim(&mut q, SapMsg::new(Sap::Control, TetraEntity::Cmce, SELF_ENTITY, SapMsgInner::Other));
    assert!(drain(&mut q).is_empty());
}

#[test]
fn same_talker_again_changes_nothing() {
    let mut core = Core::new(settings());
    let mut q = MessageQueue::new();
    start(&mut core, &mut q, 1, 1007, 5000, 0);
    drain(&mut q);
    core.on_src_change(&mut q, 1, 7); // 1007 and 7 stand for the same ISSI
    core.on_src_change(&mut q, 2, 8);
    assert!(drain(&mut q).is_empty());
}

#[test]
fn settings_come_from_the_environment() {
    let d = Settings::from_vars(None, None, None, None);
    assert_eq!(d.listen, "127.0.0.1:23471");
    assert_eq!(d.source_issi_base, 9_000_000);
    assert_eq!(d.idle_timeout_ms, 1800);
    assert_eq!(d.jitter_initial_latency_frames, 2);
    assert_eq!(d.identity, TetraEntity::Brew);
    let s = Settings::from_vars(
        Some("0.0.0.0:1".into()),
        Some("4294967297".into()),
        Some("x".into()),
        Some("+5".into()),
    );
    assert_eq!(s.listen, "0.0.0.0:1");
    assert_eq!(s.source_issi_base, 1);
    assert_eq!(s.idle_timeout_ms, 1800);
    assert_eq!(s.jitter_initial_latency_frames, 5);
}

#[test]
fn issi_saturates() {
    let mut s = settings();
    s.source_issi_base = u32::MAX - 5;
    let mut core = Core::new(s);
    let mut q = MessageQueue::new();
    start(&mut core, &mut q, 1, 999, 5000, 0);
    match &drain(&mut q)[0].msg {
        SapMsgInner::CmceCallControl(CallControl::NetworkCallStart { source_issi, .. }) => {
            assert_eq!(*source_issi, u32::MAX)
        }
        other => panic!("got {other:?}"),
    }
}

#[test]
fn nothing_is_ever_addressed_to_brew() {
    let mut core = Core::new(settings());
    let mut q = MessageQueue::new();
    let mut all = Vec::new();
    for round in 0..3u32 {
        let id = start(&mut core, &mut q, 1 + round % 2, round, 5000, 0);
        core.on_network_call_ready(&mut q, id, 1, 2, 0);
        core.on_network_call_ready(&mut q, 12345, 1, 2, 0);
        for seq in 0..12 {
            on_voice(&mut core, 1 + round % 2, seq, 0, vec![1; 240]);
        }
        core.on_src_change(&mut q, 1 + round % 2, 500 + round);
        core.on_call_end(1 + round % 2);
        for f in 1..=18u8 {
            core.set_time(TdmaTime { t: 2, f, m: 1, h: 0 });
            core.playout(0, &mut q);
        }
        all.extend(drain(&mut q));
    }
    assert!(all.len() > 6);
    for m in all {
        assert_eq!(*m.get_source(), SELF_ENTITY);
        assert!(matches!(*m.get_dest(), TetraEntity::Cmce | TetraEntity::Umac), "{m:?}");
        if let SapMsgInner::CmceCallControl(CallControl::NetworkCallStart { dest_gssi, .. }) = m.msg {
            assert!(local(dest_gssi));
        }
    }
}

#[test]
fn each_call_plays_one_block_per_tick() {
    let mut core = Core::new(settings());
    let mut q = MessageQueue::new();
    let a = start(&mut core, &mut q, 1, 1, 5000, 0);
    let b = start(&mut core, &mut q, 2, 2, 5001, 0);
    let c = start(&mut core, &mut q, 3, 3, 5002, 0);
    for (id, ts) in [(a, 2), (b, 2), (c, 3)] {
        core.on_network_call_ready(&mut q, id, 1, ts, 0);
        for k in 0..6u8 {
            core.on_encoded(id, &[k; 18], &[0; 18]);
        }
    }
    drain(&mut q);
    core.set_time(TdmaTime { t: 2, f: 1, m: 1, h: 0 });
    core.playout(0, &mut q);
    assert_eq!(drain(&mut q).len(), 2);
    core.set_time(TdmaTime { t: 3, f: 1, m: 1, h: 0 });
    core.playout(0, &mut q);
    assert_eq!(drain(&mut q).len(), 1);
    core.set_time(TdmaTime { t: 4, f: 1, m: 1, h: 0 });
    core.playout(0, &mut q);
    assert!(drain(&mut q).is_empty());
    // The end of one call leaves the others alone.
    core.on_network_call_end(b);
    assert!(core.has_call(a) && !core.has_call(b) && core.has_call(c));
    assert!(core.on_voice(2, 0, 0, vec![0; 240], 0).is_none());
    assert!(core.on_voice(2, 1, 0, vec![0; 240], 0).is_none());
    core.on_voice(1, 0, 0, vec![0; 240], 0);
    assert_eq!(core.on_voice(1, 1, 0, vec![0; 240], 0).unwrap().uuid, a);
}

#[test]
fn talker_change_drops_the_audio_of_the_old_talker() {
    let mut core = Core::new(settings());
    let mut q = MessageQueue::new();
    let id = start(&mut core, &mut q, 1, 1, 5000, 0);
    core.on_network_call_ready(&mut q, id, 1, 2, 0);
    for k in 0..5u8 {
        core.on_encoded(id, &[k; 18], &[0; 18]);
    }
    core.on_voice(1, 0, 0, vec![9; 240], 0);
    drain(&mut q);
    core.on_src_change(&mut q, 1, 2);
    let msgs = drain(&mut q);
    assert_eq!(
        msgs[0].msg,
        SapMsgInner::CmceCallControl(CallControl::NetworkCallStart {
            brew_uuid: id,
            source_issi: 9_000_002,
            dest_gssi: 5000,
            priority: 3
        })
    );
    core.set_time(TdmaTime { t: 2, f: 1, m: 1, h: 0 });
    core.playout(0, &mut q);
    assert!(drain(&mut q).is_empty(), "the buffer primes again");
    assert!(core.on_voice(1, 1, 0, vec![8; 240], 0).is_none(), "half a block was dropped too");
    assert_eq!(core.on_voice(1, 2, 0, vec![7; 240], 0).unwrap().pcm_a, [8i16; 240]);
}

#[test]
fn given_id_is_used_for_the_call() {
    let mut core = Core::new(settings());
    let mut q = MessageQueue::new();
    core.start_call(&mut q, 42, 1, 2, 5000, 1, 0);
    assert!(core.has_call(42));
    assert_eq!(
        drain(&mut q)[0].msg,
        SapMsgInner::CmceCallControl(CallControl::NetworkCallStart {
            brew_uuid: 42,
            source_issi: 9_000_002,
            dest_gssi: 5000,
            priority: 1
        })
    );
}
