use flowdmr::ipc::{
    FlowDmrBody, FlowDmrFrame,
    FlowDmrKind::{CallEnd, CallStart, Keepalive, SrcChange, Voice},
    PCM_SAMPLES_PER_FRAME, VOICE_FLAG_FIRST,
};
use flowdmr::meta::MetaLine;
use flowdmr::recorder::{Recorder, RecorderAction};
use flowdmr::session::{CallManager, FrameQueue, FrameSink, Watchdog};

fn taken(sink: &mut FrameQueue) -> Vec<FlowDmrFrame> {
    let mut out = Vec::new();
    while let Some(f) = sink.pop() {
        out.push(f);
    }
    out
}

fn pcm() -> Vec<i16> {
    vec![0i16; PCM_SAMPLES_PER_FRAME]
}

#[test]
fn meta_led_call_then_voice_then_end() {
    let mut cm = CallManager::new(0);
    let mut sink = FrameQueue::new();

    cm.on_meta(&MetaLine { source: Some(2_604_001), talkgroup: Some(9), call_end: false }, 5000, 0, &mut sink);
    cm.on_pcm(pcm(), 5000, 10, &mut sink);
    cm.on_pcm(pcm(), 5000, 40, &mut sink);
    cm.on_meta(&MetaLine { call_end: true, ..Default::default() }, 5000, 100, &mut sink);

    let sent = taken(&mut sink);
    let kinds: Vec<_> = sent.iter().map(|f| f.kind()).collect();
    assert_eq!(kinds, vec![CallStart, Voice, Voice, CallEnd]);

    match &sent[0].body {
        FlowDmrBody::CallStart { source_id, dmr_tg, target_gssi, .. } => {
            assert_eq!((*source_id, *dmr_tg, *target_gssi), (2_604_001, 9, 5000));
        }
        _ => unreachable!(),
    }
    // First voice frame flagged.
    match &sent[1].body {
        FlowDmrBody::Voice { flags, .. } => assert_eq!(*flags & VOICE_FLAG_FIRST, VOICE_FLAG_FIRST),
        _ => unreachable!(),
    }
    assert!(!cm.has_active_call());
}

#[test]
fn pcm_before_meta_starts_provisional_then_srcchange() {
    let mut cm = CallManager::new(0);
    let mut sink = FrameQueue::new();
    cm.on_pcm(pcm(), 5001, 0, &mut sink); // provisional CallStart (src 0) + Voice
    cm.on_meta(&MetaLine { source: Some(777), talkgroup: Some(9), call_end: false }, 5001, 20, &mut sink);

    let kinds: Vec<_> = taken(&mut sink).iter().map(|f| f.kind()).collect();
    assert_eq!(kinds, vec![CallStart, Voice, SrcChange]);
    assert_eq!(cm.current_source(), Some(777));
}

#[test]
fn silence_timeout_ends_call() {
    let mut cm = CallManager::new(0);
    let mut sink = FrameQueue::new();
    cm.on_meta(&MetaLine { source: Some(1), talkgroup: Some(2), call_end: false }, 5000, 0, &mut sink);
    cm.on_pcm(pcm(), 5000, 0, &mut sink);
    cm.tick(500, 1200, &mut sink); // not yet
    assert!(cm.has_active_call());
    cm.tick(1300, 1200, &mut sink); // exceeded
    assert!(!cm.has_active_call());
    assert_eq!(taken(&mut sink).last().unwrap().kind(), CallEnd);
}

#[test]
fn fixed_source_id_one_speaker_no_srcchange() {
    let mut cm = CallManager::new(7); // fixed id 7
    let mut sink = FrameQueue::new();
    cm.on_meta(&MetaLine { source: Some(100), talkgroup: Some(9), call_end: false }, 5000, 0, &mut sink);
    cm.on_meta(&MetaLine { source: Some(200), talkgroup: Some(9), call_end: false }, 5000, 50, &mut sink);
    // Exactly one CallStart with id 7, and NO SrcChange despite the id changing.
    let sent = taken(&mut sink);
    let kinds: Vec<_> = sent.iter().map(|f| f.kind()).collect();
    assert_eq!(kinds, vec![CallStart]);
    match &sent[0].body {
        FlowDmrBody::CallStart { source_id, .. } => assert_eq!(*source_id, 7),
        _ => unreachable!(),
    }
}

#[test]
fn talker_change_within_call() {
    let mut cm = CallManager::new(0);
    let mut sink = FrameQueue::new();
    cm.on_meta(&MetaLine { source: Some(100), talkgroup: Some(9), call_end: false }, 5000, 0, &mut sink);
    cm.on_meta(&MetaLine { source: Some(200), talkgroup: Some(9), call_end: false }, 5000, 50, &mut sink);
    let src_changes: Vec<_> = taken(&mut sink)
        .iter()
        .filter_map(|f| match f.body {
            FlowDmrBody::SrcChange { source_id } => Some(source_id),
            _ => None,
        })
        .collect();
    assert_eq!(src_changes, vec![200]);
}

#[test]
fn voice_is_numbered_and_keeps_its_samples() {
    let mut cm = CallManager::new(0);
    let mut sink = FrameQueue::new();
    for k in 0..3i16 {
        cm.on_pcm(vec![k; 240], 5000, 0, &mut sink);
    }
    let sent = taken(&mut sink);
    assert_eq!(sent.len(), 4);
    for k in 0..3usize {
        assert_eq!(sent[k + 1].stream_id, 1);
        assert_eq!(
            sent[k + 1].body,
            FlowDmrBody::Voice {
                seq: k as u32,
                flags: if k == 0 { VOICE_FLAG_FIRST } else { 0 },
                pcm: vec![k as i16; 240]
            }
        );
    }
}

#[test]
fn each_call_has_a_stream_of_its_own() {
    let mut cm = CallManager::new(0);
    let mut sink = FrameQueue::new();
    let end = MetaLine { call_end: true, ..Default::default() };
    for _ in 0..3 {
        cm.on_pcm(pcm(), 5000, 0, &mut sink);
        cm.on_meta(&end, 5000, 0, &mut sink);
        cm.on_meta(&end, 5000, 0, &mut sink); // no call: nothing is sent
    }
    assert_eq!(cm.calls_started(), 3);
    let ids: Vec<u32> = taken(&mut sink).iter().map(|f| f.stream_id).collect();
    assert_eq!(ids, vec![1, 1, 1, 2, 2, 2, 3, 3, 3]);
}

#[test]
fn empty_line_changes_nothing() {
    let mut cm = CallManager::new(0);
    let mut sink = FrameQueue::new();
    cm.on_meta(&MetaLine::default(), 5000, 0, &mut sink);
    assert!(!cm.has_active_call());
    assert!(sink.pop().is_none());
    assert_eq!(cm.current_source(), None);
}

#[test]
fn talkgroup_alone_starts_a_call_without_a_source() {
    let mut cm = CallManager::new(0);
    let mut sink = FrameQueue::new();
    cm.on_meta(&MetaLine { source: None, talkgroup: Some(8), call_end: false }, 5005, 0, &mut sink);
    let f = sink.pop().unwrap();
    assert_eq!(f.body, FlowDmrBody::CallStart { source_id: 0, dmr_tg: 8, target_gssi: 5005, priority: 0 });
}

#[test]
fn watchdog_sends_a_keepalive_every_twenty_ticks() {
    let mut cm = CallManager::new(0);
    let mut sink = FrameQueue::new();
    let mut w = Watchdog::new();
    for _ in 0..39 {
        w.tick(&mut cm, 0, 1200, &mut sink);
    }
    let sent = taken(&mut sink);
    assert_eq!(sent.len(), 1);
    assert_eq!((sent[0].kind(), sent[0].stream_id), (Keepalive, 0));
    w.tick(&mut cm, 0, 1200, &mut sink);
    assert_eq!(taken(&mut sink).len(), 1);
    cm.on_pcm(pcm(), 5000, 0, &mut sink);
    taken(&mut sink);
    w.tick(&mut cm, 1200, 1200, &mut sink);
    assert_eq!(sink.pop().unwrap().kind(), CallEnd);
}

#[test]
fn recording_has_the_decoded_ids() {
    let mut cm = CallManager::new(7);
    cm.set_recorder(Recorder::new(0));
    let mut sink = FrameQueue::new();
    cm.on_pcm(vec![5; 240], 5000, 0, &mut sink);
    cm.on_meta(&MetaLine { source: Some(100), talkgroup: Some(9), call_end: false }, 5000, 0, &mut sink);
    cm.on_meta(&MetaLine { call_end: true, ..Default::default() }, 5000, 0, &mut sink);
    let mut names = Vec::new();
    let mut bytes = Vec::new();
    while let Some(a) = cm.recorder_action() {
        match a {
            RecorderAction::Create { header } => bytes = header,
            RecorderAction::Append { bytes: more } => bytes.extend(more),
            RecorderAction::Discard => panic!("discarded"),
            RecorderAction::Save { name, .. } => names.push(name),
        }
        cm.recorder_report(true);
    }
    assert_eq!(bytes.len(), 44 + 480);
    assert_eq!(names.len(), 1);
    assert!(names[0].ends_with("_tg9_src100.wav"), "got {}", names[0]);
}

#[test]
fn frames_pass_through_a_sink() {
    let mut sink = FrameQueue::new();
    sink.send(FlowDmrFrame::new(9, FlowDmrBody::CallEnd));
    assert_eq!(sink.pop(), Some(FlowDmrFrame::new(9, FlowDmrBody::CallEnd)));
    assert_eq!(sink.pop(), None);
}
