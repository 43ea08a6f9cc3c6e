use flowdmr::codec::{
    get_packed_bit, join_codec_frames_to_tmd_block, set_packed_bit, Vocoder, CODED_BITS_PER_FRAME,
    CODED_BYTES_PER_FRAME, TMD_BITS_PER_BLOCK, TMD_PACKED_BYTES,
};

#[test]
fn block_size_is_35_bytes() {
    assert_eq!(TMD_PACKED_BYTES, 35);
    assert_eq!(CODED_BYTES_PER_FRAME, 18);
}

#[test]
fn bit_pack_round_trips_274_bits() {
    // Fill two frames with a deterministic pattern, join, and verify each
    // packed bit matches the source frame bit.
    let mut a = [0u8; CODED_BYTES_PER_FRAME];
    let mut b = [0u8; CODED_BYTES_PER_FRAME];
    for i in 0..CODED_BITS_PER_FRAME {
        if i % 3 == 0 {
            set_packed_bit(&mut a, i, 1);
        }
        if i % 2 == 0 {
            set_packed_bit(&mut b, i, 1);
        }
    }
    let block = join_codec_frames_to_tmd_block(&a, &b);
    for i in 0..TMD_BITS_PER_BLOCK {
        let (frame, fb) = if i < CODED_BITS_PER_FRAME {
            (&a, i)
        } else {
            (&b, i - CODED_BITS_PER_FRAME)
        };
        assert_eq!(get_packed_bit(&block, i), get_packed_bit(frame, fb), "bit {i}");
    }
}

#[test]
fn second_frame_starts_in_the_middle_of_a_byte() {
    let a = [0u8; CODED_BYTES_PER_FRAME];
    let mut b = [0u8; CODED_BYTES_PER_FRAME];
    b[0] = 0x80;
    let block = join_codec_frames_to_tmd_block(&a, &b);
    // Bit 137 is bit 1 of byte 17.
    assert_eq!(block[17], 0x40);
    assert!(block.iter().enumerate().all(|(i, x)| i == 17 || *x == 0));
}

#[test]
fn bits_past_the_coded_ones_are_left_out() {
    let mut a = [0u8; CODED_BYTES_PER_FRAME];
    a[17] = 0x7F; // bits 137 to 143
    let b = [0u8; CODED_BYTES_PER_FRAME];
    assert_eq!(join_codec_frames_to_tmd_block(&a, &b), [0u8; TMD_PACKED_BYTES]);
}

#[test]
fn clearing_a_bit_is_no_operation() {
    let mut data = [0xFFu8; 2];
    set_packed_bit(&mut data, 3, 0);
    assert_eq!(data, [0xFF, 0xFF]);
    set_packed_bit(&mut data, 3, 2);
    assert_eq!(data, [0xFF, 0xFF]);
}

#[test]
fn silent_vocoder_encodes_silence() {
    let mut v = Vocoder::new().unwrap();
    assert_eq!(v.encode_frame(&[1000i16; 240]), [0u8; CODED_BYTES_PER_FRAME]);
    assert_eq!(v.encode_block(&[1i16; 240], &[2i16; 240]), [0u8; TMD_PACKED_BYTES]);
}
