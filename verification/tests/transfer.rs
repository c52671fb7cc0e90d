use peerdrop::MAX_CHUNK_SIZE;
use peerdrop::transfer::{TransferEngine, chunk_payload};

fn payload_of(len: usize) -> Vec<u8> {
    (0..len).map(|i| (i % 251) as u8).collect()
}

#[test]
fn fifty_thousand_bytes_make_four_frames() {
    let payload = payload_of(50000);
    let frames = chunk_payload(&payload, 16384);
    let sizes: Vec<usize> = frames.iter().map(|f| f.len()).collect();
    assert_eq!(sizes, vec![16384, 16384, 16384, 848]);
    let rebuilt: Vec<u8> = frames.concat();
    assert_eq!(rebuilt, payload);
}

#[test]
fn exact_multiple_makes_no_empty_frame() {
    let payload = payload_of(32768);
    let frames = chunk_payload(&payload, 16384);
    let sizes: Vec<usize> = frames.iter().map(|f| f.len()).collect();
    assert_eq!(sizes, vec![16384, 16384]);
}

#[test]
fn empty_payload_makes_no_frame() {
    let frames = chunk_payload(&[], 16384);
    assert!(frames.is_empty());
}

#[test]
fn small_chunk_sizes_cut_correctly() {
    let payload = vec![1u8, 2, 3, 4, 5];
    let frames = chunk_payload(&payload, 2);
    assert_eq!(frames, vec![vec![1u8, 2], vec![3, 4], vec![5]]);
}

#[test]
fn drain_keeps_order_and_counts_nominal_bytes() {
    let payload = payload_of(50000);
    let mut engine = TransferEngine::new();
    engine.enqueue_payload(&payload);
    assert_eq!(engine.pending_count(), 4);
    assert_eq!(engine.bytes_sent(), 0);

    let mut rebuilt: Vec<u8> = Vec::new();
    while let Some(frame) = engine.next_frame() {
        rebuilt.extend_from_slice(frame);
        engine.mark_sent();
    }
    assert_eq!(rebuilt, payload);
    assert_eq!(engine.pending_count(), 0);
    assert_eq!(engine.bytes_sent(), 4 * MAX_CHUNK_SIZE as u64);
}

#[test]
fn rejected_frame_is_retried_before_any_later_one() {
    let payload = payload_of(20000);
    let mut engine = TransferEngine::new();
    engine.enqueue_payload(&payload);
    assert_eq!(engine.pending_count(), 2);

    // The channel refuses the first attempt: the engine keeps the frame
    // first in line, so the retry on the next low-water signal offers the
    // very same bytes again.
    let first_attempt = engine.next_frame().unwrap().clone();
    let retry = engine.next_frame().unwrap().clone();
    assert_eq!(first_attempt, retry);
    assert_eq!(engine.pending_count(), 2);
    assert_eq!(engine.bytes_sent(), 0);

    engine.mark_sent();
    let second = engine.next_frame().unwrap();
    assert_eq!(second.len(), 20000 - 16384);
    assert_ne!(*second, first_attempt);
    assert_eq!(engine.bytes_sent(), MAX_CHUNK_SIZE as u64);
}

#[test]
fn one_engine_carries_payloads_back_to_back() {
    let first = payload_of(100);
    let second = payload_of(300);
    let mut engine = TransferEngine::new();
    engine.enqueue_payload(&first);
    engine.enqueue_payload(&second);
    assert_eq!(engine.pending_count(), 2);

    assert_eq!(engine.next_frame().unwrap().len(), 100);
    engine.mark_sent();
    assert_eq!(engine.next_frame().unwrap().len(), 300);
    engine.mark_sent();
    assert!(engine.next_frame().is_none());
    assert_eq!(engine.bytes_sent(), 2 * MAX_CHUNK_SIZE as u64);
}
