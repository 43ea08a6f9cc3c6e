use flowdmr::jitter::VoiceJitterBuffer;

#[test]
fn primes_then_releases_one_per_pop() {
    let mut j = VoiceJitterBuffer::with_initial_latency(0); // target = BASE_FRAMES (4)
    for i in 0..3 {
        j.push(vec![i as u8]);
    }
    assert!(j.pop_ready().is_none(), "should prime until target reached");
    j.push(vec![3]);
    // Now 4 buffered == target; starts releasing.
    assert_eq!(j.pop_ready(), Some(vec![0]));
    assert_eq!(j.pop_ready(), Some(vec![1]));
}

#[test]
fn drain_returns_until_empty() {
    let mut j = VoiceJitterBuffer::with_initial_latency(0);
    j.push(vec![1]);
    j.push(vec![2]);
    assert_eq!(j.pop_drain(), Some(vec![1]));
    assert_eq!(j.pop_drain(), Some(vec![2]));
    assert_eq!(j.pop_drain(), None);
}

#[test]
fn flush_clears_and_reprimes() {
    let mut j = VoiceJitterBuffer::with_initial_latency(0);
    for i in 0..6 {
        j.push(vec![i]);
    }
    assert_eq!(j.flush(), 6);
    assert!(j.is_empty());
    assert!(j.pop_ready().is_none());
}

#[test]
fn oldest_block_goes_when_the_buffer_is_full() {
    let mut j = VoiceJitterBuffer::with_initial_latency(0);
    for i in 0..25u8 {
        j.push(vec![i]);
    }
    assert_eq!(j.len(), 24);
    assert_eq!(j.pop_drain(), Some(vec![1]));
}

#[test]
fn latency_is_limited() {
    // 4 + 10 blocks are wanted, however much latency is asked for.
    let mut j = VoiceJitterBuffer::with_initial_latency(1000);
    for i in 0..13u8 {
        j.push(vec![i]);
        assert!(j.pop_ready().is_none());
    }
    j.push(vec![13]);
    assert_eq!(j.pop_ready(), Some(vec![0]));
}

#[test]
fn running_dry_raises_the_target() {
    let mut j = VoiceJitterBuffer::with_initial_latency(0);
    for i in 0..4u8 {
        j.push(vec![i]);
    }
    for i in 0..4u8 {
        assert_eq!(j.pop_ready(), Some(vec![i]));
    }
    assert_eq!(j.pop_ready(), None); // underrun: now 5 blocks are wanted
    for i in 0..4u8 {
        j.push(vec![i]);
        assert_eq!(j.pop_ready(), None);
    }
    j.push(vec![4]);
    assert_eq!(j.pop_ready(), Some(vec![0]));
}

#[test]
fn steady_playout_lowers_the_target_again() {
    let mut j = VoiceJitterBuffer::with_initial_latency(0);
    for i in 0..4u8 {
        j.push(vec![i]);
    }
    for _ in 0..4 {
        assert!(j.pop_ready().is_some());
    }
    assert_eq!(j.pop_ready(), None); // target 5
    for i in 0..10u8 {
        j.push(vec![i]);
    }
    for _ in 0..80 {
        j.push(vec![0]);
        assert!(j.pop_ready().is_some());
    }
    // The boost is given back: a dry buffer that is refilled waits for 5 again,
    // not for 6.
    while j.pop_ready().is_some() {}
    for i in 0..4u8 {
        j.push(vec![i]);
        assert_eq!(j.pop_ready(), None);
    }
    j.push(vec![9]);
    assert_eq!(j.pop_ready(), Some(vec![0]));
}

#[test]
fn default_buffer_sets_its_target_on_first_use() {
    let mut j = VoiceJitterBuffer::default();
    for i in 0..4u8 {
        assert_eq!(j.pop_ready(), None);
        j.push(vec![i]);
    }
    assert_eq!(j.pop_ready(), Some(vec![0]));
}
