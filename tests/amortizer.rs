use tdigest::{Amortizer, BUFFER_CAPACITY};

#[test]
fn buffer_fills_then_hands_out_batch_in_order() {
    let mut a = Amortizer::new();
    for i in 0..(BUFFER_CAPACITY as u64 - 1) {
        assert!(a.observe(i).is_none());
        assert_eq!(a.pending_len(), i as usize + 1);
    }
    let batch = a.observe(31).expect("a full buffer is handed out");
    let expected: Vec<u64> = (0..32).collect();
    assert_eq!(batch, expected);
    assert_eq!(a.pending_len(), 0);
    assert_eq!(a.count(), 32);
}

#[test]
fn counts_every_observation() {
    let mut a = Amortizer::new();
    let mut batches = 0;
    for i in 0..10_001u64 {
        if a.observe((i as f64).to_bits()).is_some() {
            batches += 1;
        }
    }
    assert_eq!(batches, 10_001 / 32);
    assert_eq!(a.pending_len(), 10_001 % 32);
    assert_eq!(a.count(), 10_001);
    let (batch, count) = a.reset();
    assert_eq!(count, 10_001);
    assert_eq!(batch.len(), 10_001 % 32);
    assert_eq!(f64::from_bits(batch[batch.len() - 1]), 10_000.0);
}

#[test]
fn second_reset_is_empty() {
    let mut a = Amortizer::new();
    a.observe(1.23f64.to_bits());
    let (batch, count) = a.reset();
    assert_eq!(batch, vec![1.23f64.to_bits()]);
    assert_eq!(count, 1);
    let (batch, count) = a.reset();
    assert!(batch.is_empty());
    assert_eq!(count, 0);
}

#[test]
fn flush_hands_out_pending_and_keeps_count() {
    let mut a = Amortizer::new();
    assert!(a.flush().is_empty());
    a.observe(7);
    a.observe(3);
    a.observe(7);
    assert_eq!(a.flush(), vec![7, 3, 7]);
    assert_eq!(a.pending_len(), 0);
    assert_eq!(a.count(), 3);
    assert!(a.flush().is_empty());
    assert_eq!(a.count(), 3);
}

#[test]
fn reset_after_flush_reports_merged_count() {
    let mut a = Amortizer::new();
    for i in 0..40u64 {
        a.observe(i);
    }
    assert_eq!(a.flush(), (32..40).collect::<Vec<u64>>());
    let (batch, count) = a.reset();
    assert!(batch.is_empty());
    assert_eq!(count, 40);
    assert_eq!(a.count(), 0);
}
