use flowdmr::ipc::{
    DecodeError, FlowDmrBody, FlowDmrFrame, FlowDmrKind, PCM_SAMPLES_PER_FRAME, VOICE_FLAG_FIRST,
};

fn round_trip(frame: FlowDmrFrame) {
    let bytes = frame.encode();
    let decoded = FlowDmrFrame::decode(&bytes).expect("decode");
    assert_eq!(frame, decoded);
}

#[test]
fn call_start_round_trip() {
    round_trip(FlowDmrFrame::new(
        42,
        FlowDmrBody::CallStart {
            source_id: 2_604_001,
            dmr_tg: 9,
            target_gssi: 5000,
            priority: 0,
        },
    ));
}

#[test]
fn voice_round_trip() {
    let pcm: Vec<i16> = (0..PCM_SAMPLES_PER_FRAME as i32)
        .map(|i| (i * 17 - 2000) as i16)
        .collect();
    round_trip(FlowDmrFrame::new(
        7,
        FlowDmrBody::Voice {
            seq: 12345,
            flags: VOICE_FLAG_FIRST,
            pcm,
        },
    ));
}

#[test]
fn control_frames_round_trip() {
    round_trip(FlowDmrFrame::new(1, FlowDmrBody::CallEnd));
    round_trip(FlowDmrFrame::new(1, FlowDmrBody::Keepalive));
    round_trip(FlowDmrFrame::new(
        1,
        FlowDmrBody::SrcChange { source_id: 999 },
    ));
}

#[test]
fn rejects_bad_magic() {
    let mut bytes = FlowDmrFrame::new(1, FlowDmrBody::Keepalive).encode();
    // Zero the low magic byte: 0xFD30 -> 0xFD00 (little-endian).
    bytes[0] = 0;
    assert_eq!(FlowDmrFrame::decode(&bytes), Err(DecodeError::BadMagic(0xFD00)));
}

#[test]
fn rejects_truncated_voice() {
    let mut bytes = FlowDmrFrame::new(
        1,
        FlowDmrBody::Voice {
            seq: 1,
            flags: 0,
            pcm: vec![1, 2, 3],
        },
    )
    .encode();
    bytes.truncate(bytes.len() - 2);
    assert_eq!(FlowDmrFrame::decode(&bytes), Err(DecodeError::Truncated));
}

#[test]
fn voice_frame_fits_one_datagram() {
    let pcm = vec![0i16; PCM_SAMPLES_PER_FRAME];
    let bytes = FlowDmrFrame::new(1, FlowDmrBody::Voice { seq: 0, flags: 0, pcm }).encode();
    // 8 header + 8 voice-subheader + 480 PCM bytes = 496, well under MTU.
    assert_eq!(bytes.len(), 8 + 8 + PCM_SAMPLES_PER_FRAME * 2);
    assert!(bytes.len() < 1400);
}

#[test]
fn frame_bytes_are_as_documented() {
    let f = FlowDmrFrame::new(
        0x0102_0304,
        FlowDmrBody::CallStart {
            source_id: 0x1112_1314,
            dmr_tg: 0x2122_2324,
            target_gssi: 0x3132_3334,
            priority: 9,
        },
    );
    assert_eq!(
        f.encode(),
        vec![
            0x30, 0xFD, 1, 1, 4, 3, 2, 1, 0x14, 0x13, 0x12, 0x11, 0x24, 0x23, 0x22, 0x21, 0x34,
            0x33, 0x32, 0x31, 9
        ]
    );
    let v = FlowDmrFrame::new(1, FlowDmrBody::Voice { seq: 2, flags: 3, pcm: vec![-2, 256] });
    assert_eq!(
        v.encode(),
        vec![0x30, 0xFD, 1, 2, 1, 0, 0, 0, 2, 0, 0, 0, 3, 0, 2, 0, 0xFE, 0xFF, 0, 1]
    );
}

#[test]
fn rejects_version_and_kind_that_are_not_known() {
    let mut bytes = FlowDmrFrame::new(1, FlowDmrBody::Keepalive).encode();
    bytes[2] = 9;
    assert_eq!(FlowDmrFrame::decode(&bytes), Err(DecodeError::BadVersion(9)));
    bytes[2] = 1;
    bytes[3] = 6;
    assert_eq!(FlowDmrFrame::decode(&bytes), Err(DecodeError::BadKind(6)));
    bytes[3] = 0;
    assert_eq!(FlowDmrFrame::decode(&bytes), Err(DecodeError::BadKind(0)));
}

#[test]
fn errors_have_texts() {
    assert_eq!(DecodeError::TooShort.message(), "datagram shorter than header");
    assert_eq!(DecodeError::Truncated.message(), "payload truncated");
    assert_eq!(DecodeError::BadMagic(0xFD0A).message(), "bad magic 0xFD0A");
    assert_eq!(DecodeError::BadMagic(7).message(), "bad magic 0x0007");
    assert_eq!(DecodeError::BadVersion(20).message(), "unsupported version 20");
    assert_eq!(DecodeError::BadKind(0).message(), "unknown kind 0");
}

#[test]
fn every_cut_of_a_frame_is_refused() {
    let bytes = FlowDmrFrame::new(3, FlowDmrBody::Voice { seq: 1, flags: 0, pcm: vec![5; 4] }).encode();
    for n in 0..bytes.len() {
        let want = if n < 8 { DecodeError::TooShort } else { DecodeError::Truncated };
        assert_eq!(FlowDmrFrame::decode(&bytes[..n]), Err(want), "at {n}");
    }
}

#[test]
fn bytes_behind_a_frame_are_ignored() {
    let f = FlowDmrFrame::new(3, FlowDmrBody::SrcChange { source_id: 77 });
    let mut bytes = f.encode();
    bytes.push(0xAA);
    assert_eq!(FlowDmrFrame::decode(&bytes), Ok(f));
}

#[test]
fn kinds_have_codes() {
    for code in 1..=5u8 {
        assert_eq!(FlowDmrKind::from_u8(code).unwrap().code(), code);
    }
    assert_eq!(FlowDmrKind::from_u8(0), None);
    assert_eq!(FlowDmrKind::from_u8(6), None);
}

#[test]
fn encoding_a_decoded_frame_gives_the_datagram_back() {
    let bytes = vec![0x30, 0xFD, 1, 2, 9, 8, 7, 6, 1, 2, 3, 4, 5, 6, 2, 0, 0xFF, 0x7F, 0x00, 0x80];
    let f = FlowDmrFrame::decode(&bytes).unwrap();
    assert_eq!(f.stream_id, 0x0607_0809);
    assert_eq!(
        f.body,
        FlowDmrBody::Voice { seq: 0x0403_0201, flags: 0x0605, pcm: vec![i16::MAX, i16::MIN] }
    );
    assert_eq!(f.encode(), bytes);
}
