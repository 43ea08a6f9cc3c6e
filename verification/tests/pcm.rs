use flowdmr::ipc::FlowDmrKind;
use flowdmr::pcm::{extract_samples, frame_peak, on_frame, GainTable, Reframer};
use flowdmr::session::{CallManager, FrameQueue};
use flowdmr::status::Status;

fn le_bytes(samples: &[i16]) -> Vec<u8> {
    samples.iter().flat_map(|s| s.to_le_bytes()).collect()
}

fn gain_table(gain: f32) -> Option<GainTable> {
    let table: Vec<i16> = (0..65536u32)
        .map(|u| {
            let s = u as u16 as i16;
            (s as f32 * gain).clamp(i16::MIN as f32, i16::MAX as f32) as i16
        })
        .collect();
    GainTable::new(table)
}

#[test]
fn stereo_takes_left_channel_only() {
    // Interleaved L/R: L=100,200,300  R=-1,-2,-3
    let bytes = le_bytes(&[100, -1, 200, -2, 300, -3]);
    let mut out = Vec::new();
    extract_samples(&bytes, true, &None, &mut out);
    assert_eq!(out, vec![100, 200, 300]);
}

#[test]
fn mono_takes_every_sample() {
    let bytes = le_bytes(&[10, 20, 30, 40]);
    let mut out = Vec::new();
    extract_samples(&bytes, false, &None, &mut out);
    assert_eq!(out, vec![10, 20, 30, 40]);
}

#[test]
fn gain_is_applied_and_clamped() {
    let bytes = le_bytes(&[10000, 20000]); // mono
    let mut out = Vec::new();
    extract_samples(&bytes, false, &gain_table(2.0), &mut out);
    assert_eq!(out, vec![20000, i16::MAX]); // 20000*2 clamps to 32767
}

#[test]
fn gain_reaches_negative_samples() {
    let g = gain_table(0.5).unwrap();
    assert_eq!(g.apply(-100), -50);
    assert_eq!(g.apply(i16::MIN), -16384);
    assert!(GainTable::new(vec![0; 65535]).is_none());
}

#[test]
fn half_a_pair_gives_its_left_sample() {
    let bytes = le_bytes(&[1, 2, 3]);
    let mut out = vec![9];
    extract_samples(&bytes, true, &None, &mut out);
    assert_eq!(out, vec![9, 1, 3]);
    let mut out = Vec::new();
    extract_samples(&bytes[..5], false, &None, &mut out);
    assert_eq!(out, vec![1, 2]);
    extract_samples(&[], true, &None, &mut out);
    assert_eq!(out.len(), 2);
}

#[test]
fn cuts_of_the_stream_do_not_matter() {
    let samples: Vec<i16> = (0..1000).map(|i| (i * 7 - 3000) as i16).collect();
    let bytes = le_bytes(&samples);
    let mut whole = Reframer::new(true, None);
    whole.feed(&bytes);
    let mut want = Vec::new();
    while let Some(f) = whole.next_frame() {
        want.push(f);
    }
    assert_eq!(want.len(), 2); // 500 left samples
    assert_eq!(want[0][1], samples[2]);
    for step in [1usize, 3, 5, 7, 481] {
        let mut r = Reframer::new(true, None);
        let mut got = Vec::new();
        for part in bytes.chunks(step) {
            r.feed(part);
            while let Some(f) = r.next_frame() {
                got.push(f);
            }
        }
        assert_eq!(got, want, "step {step}");
    }
}

#[test]
fn frames_have_240_samples() {
    let mut r = Reframer::new(false, None);
    r.feed(&le_bytes(&[3; 239]));
    assert!(r.next_frame().is_none());
    r.feed(&le_bytes(&[4; 241]));
    assert_eq!(r.next_frame().unwrap()[239], 4);
    assert_eq!(r.next_frame().unwrap(), vec![4; 240]);
    assert!(r.next_frame().is_none());
}

#[test]
fn peak_is_the_loudest_sample() {
    assert_eq!(frame_peak(&[]), 0);
    assert_eq!(frame_peak(&[1, -5, 3]), 5);
    assert_eq!(frame_peak(&[0, i16::MIN]), 32767);
}

#[test]
fn meter_follows_the_frames() {
    let mut cm = CallManager::new(0);
    let mut status = Status::default();
    let mut sink = FrameQueue::new();
    on_frame(vec![32760; 240], 5000, 0, &mut cm, &mut status, &mut sink);
    assert_eq!((status.pcm_frames, status.pcm_peak, status.pcm_clip), (1, 32760, 1));
    assert_eq!(status.seconds_since_pcm, Some(0));
    on_frame(vec![0; 240], 5000, 0, &mut cm, &mut status, &mut sink);
    assert_eq!((status.pcm_frames, status.pcm_peak, status.pcm_clip), (2, 31777, 1));
    assert_eq!(sink.pop().unwrap().kind(), FlowDmrKind::CallStart);
    assert_eq!(sink.pop().unwrap().kind(), FlowDmrKind::Voice);
    assert_eq!(sink.pop().unwrap().kind(), FlowDmrKind::Voice);
}

#[test]
fn decay_is_that_of_a_factor_of_0_97() {
    for p in 0..=i16::MAX {
        let mut s = Status { pcm_peak: p, ..Default::default() };
        s.note_pcm(0);
        let want = (p as f32 * 0.97) as i16;
        assert_eq!(s.pcm_peak, want, "at {p}");
    }
}
