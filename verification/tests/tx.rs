//! Sending frames in batches.
use custos::tx::{
    run_baseline, run_optimized, CompQueue, FillQueue, FlushAction, FlushEvent, FrameDesc, InFlight,
    OptimizedForwarder, ReclaimAction, ReclaimEvent, RxQueue, TxBatcher, TxQueue, Umem,
    BENCH_BATCH_SIZE,
};

#[test]
fn a_buffer_of_zeroes_and_its_frames() {
    let (mut umem, descs) = Umem::new_mock(10_000);
    assert_eq!(descs.len(), 4);
    assert_eq!(descs[3].addr(), 3 * 2048);
    assert_eq!(descs[3].lengths().data(), 2048);
    let desc = FrameDesc::new(2048, 4);
    umem.data_mut(&desc)
        .contents_mut()
        .copy_from_slice(&[1, 2, 3, 4]);
    assert_eq!(umem.data(&desc).contents(), &[1, 2, 3, 4]);
    assert_eq!(umem.data(&FrameDesc::new(2047, 3)).contents(), &[0, 1, 2]);
    assert_eq!(FrameDesc::default(), FrameDesc::new(0, 0));
}

#[test]
fn rings_in_memory_keep_the_order() {
    let mut ring = InFlight::new();
    let mut tx = TxQueue::new();
    let mut cq = CompQueue::new();
    let descs = [FrameDesc::new(1, 1), FrameDesc::new(2, 2), FrameDesc::new(3, 3)];
    assert_eq!(tx.produce(&mut ring, &descs), 3);
    assert_eq!(ring.len(), 3);
    let mut back = [FrameDesc::default(); 2];
    assert_eq!(cq.consume(&mut ring, &mut back), 2);
    assert_eq!(back, [descs[0], descs[1]]);
    assert_eq!(cq.consume(&mut ring, &mut back), 1);
    assert_eq!(back[0], descs[2]);
    assert_eq!(cq.consume(&mut ring, &mut back), 0);
    let mut rx = RxQueue::new();
    assert_eq!(rx.consume(&mut back), 0);
    assert_eq!(FillQueue::new().produce(&back), 2);
}

#[test]
fn a_batch_is_flushed_when_it_is_full() {
    let mut ring = InFlight::new();
    let mut tx = TxQueue::new();
    let mut batcher = TxBatcher::new(3);
    assert!(!batcher.enqueue(FrameDesc::new(1, 10)));
    assert!(!batcher.enqueue(FrameDesc::new(2, 20)));
    assert!(batcher.enqueue(FrameDesc::new(3, 30)));
    assert_eq!(batcher.pending().len(), 3);
    assert_eq!(batcher.flush(&mut tx, &mut ring), 3);
    assert_eq!(ring.len(), 3);
    assert_eq!(batcher.pending().len(), 0);
    assert_eq!(batcher.stats().tx_packets, 3);
    assert_eq!(batcher.stats().tx_bytes, 60);
    assert_eq!(batcher.flush(&mut tx, &mut ring), 0);
    batcher.reset_stats();
    assert_eq!(batcher.stats().tx_packets, 0);
}

#[test]
fn a_flush_goes_on_until_every_frame_is_out() {
    let mut batcher = TxBatcher::new(4);
    for i in 0..4 {
        batcher.enqueue(FrameDesc::new(i, 1));
    }
    assert_eq!(batcher.step(FlushEvent::Begin), FlushAction::Submit);
    assert_eq!(batcher.step(FlushEvent::Accepted(1)), FlushAction::Submit);
    assert_eq!(batcher.pending()[0], FrameDesc::new(1, 1));
    // A full ring is woken up and offered the rest again.
    assert_eq!(batcher.step(FlushEvent::Accepted(0)), FlushAction::CheckWakeup);
    assert_eq!(batcher.step(FlushEvent::WakeupNeeded(true)), FlushAction::Wake);
    assert_eq!(batcher.step(FlushEvent::Woken(true)), FlushAction::Submit);
    assert_eq!(batcher.step(FlushEvent::Accepted(3)), FlushAction::CheckWakeup);
    assert_eq!(
        batcher.step(FlushEvent::WakeupNeeded(false)),
        FlushAction::Done(4)
    );
    assert_eq!(batcher.stats().tx_packets, 4);
}

#[test]
fn a_flush_that_fails_keeps_what_is_left() {
    let mut batcher = TxBatcher::new(4);
    batcher.enqueue(FrameDesc::new(1, 1));
    batcher.enqueue(FrameDesc::new(2, 1));
    batcher.step(FlushEvent::Begin);
    batcher.step(FlushEvent::Accepted(1));
    batcher.step(FlushEvent::Accepted(0));
    batcher.step(FlushEvent::WakeupNeeded(true));
    assert_eq!(batcher.step(FlushEvent::Woken(false)), FlushAction::Failed);
    assert_eq!(batcher.pending(), &[FrameDesc::new(2, 1)]);
}

#[test]
fn frames_that_came_back_are_put_into_use_again() {
    let mut ring = InFlight::new();
    let mut tx = TxQueue::new();
    let mut cq = CompQueue::new();
    let mut fq = FillQueue::new();
    let mut forwarder = OptimizedForwarder::new(2);
    assert_eq!(forwarder.forward(&mut tx, &mut ring, FrameDesc::new(1, 5)), 0);
    assert_eq!(forwarder.forward(&mut tx, &mut ring, FrameDesc::new(2, 5)), 2);
    assert_eq!(forwarder.forward(&mut tx, &mut ring, FrameDesc::new(3, 5)), 0);
    assert_eq!(forwarder.flush(&mut tx, &mut ring), 1);
    assert_eq!(ring.len(), 3);
    assert_eq!(forwarder.reclaim_completed(&mut cq, &mut fq, &mut ring), 2);
    assert_eq!(forwarder.reclaim_completed(&mut cq, &mut fq, &mut ring), 1);
    assert_eq!(forwarder.reclaim_completed(&mut cq, &mut fq, &mut ring), 0);
    assert_eq!(forwarder.stats().tx_packets, 3);
    assert_eq!(forwarder.stats().tx_bytes, 15);
    assert_eq!(forwarder.stats().recycled_packets, 3);
}

#[test]
fn frames_that_the_fill_ring_refuses_stay_pending() {
    let mut forwarder = OptimizedForwarder::new(4);
    assert_eq!(
        forwarder.reclaim_step(ReclaimEvent::Begin),
        ReclaimAction::Consume(4)
    );
    let back = vec![FrameDesc::new(1, 0), FrameDesc::new(2, 0)];
    assert_eq!(
        forwarder.reclaim_step(ReclaimEvent::Consumed(back)),
        ReclaimAction::Refill
    );
    assert_eq!(forwarder.pending_reclaim().len(), 2);
    forwarder.reclaim_step(ReclaimEvent::Refilled(1));
    assert_eq!(forwarder.pending_reclaim(), &[FrameDesc::new(2, 0)]);
}

#[test]
fn both_ways_send_everything() {
    let mut ring = InFlight::new();
    let mut fq = FillQueue::new();
    assert_eq!(run_baseline(1000, &mut ring, &mut fq), (1000, 1000));
    assert_eq!(ring.len(), 0);
    let mut forwarder = OptimizedForwarder::new(BENCH_BATCH_SIZE);
    let stats = run_optimized(1000, &mut forwarder, &mut ring, &mut fq);
    assert_eq!(stats.tx_packets, 1000);
    assert_eq!(stats.tx_bytes, 1000 * 2048);
    assert_eq!(stats.recycled_packets, 1000);
    assert_eq!(ring.len(), 0);
    assert!(forwarder.pending().is_empty());
    assert!(forwarder.pending_reclaim().is_empty());
    assert_eq!(forwarder.stats().tx_packets, 1000);
}

#[test]
fn a_failed_return_is_taken_up_again() {
    let mut forwarder = OptimizedForwarder::new(4);
    let back: Vec<FrameDesc> = (1..4).map(|i| FrameDesc::new(i, 0)).collect();
    forwarder.reclaim_step(ReclaimEvent::Begin);
    forwarder.reclaim_step(ReclaimEvent::Consumed(back.clone()));
    let mut given = forwarder.pending_reclaim()[..1].to_vec();
    forwarder.reclaim_step(ReclaimEvent::Refilled(1));
    assert_eq!(
        forwarder.reclaim_step(ReclaimEvent::Refilled(0)),
        ReclaimAction::CheckWakeup
    );
    assert_eq!(
        forwarder.reclaim_step(ReclaimEvent::WakeupNeeded(true)),
        ReclaimAction::Wake
    );
    assert_eq!(
        forwarder.reclaim_step(ReclaimEvent::Woken(false)),
        ReclaimAction::Failed
    );
    // What is left goes first, and nothing new is taken.
    assert_eq!(
        forwarder.reclaim_step(ReclaimEvent::Begin),
        ReclaimAction::Refill
    );
    given.extend_from_slice(forwarder.pending_reclaim());
    assert_eq!(
        forwarder.reclaim_step(ReclaimEvent::Refilled(2)),
        ReclaimAction::Done(2)
    );
    assert_eq!(given, back);
    assert_eq!(forwarder.stats().recycled_packets, 3);
}

#[test]
fn a_second_run_counts_on() {
    let mut ring = InFlight::new();
    let mut fq = FillQueue::new();
    let mut forwarder = OptimizedForwarder::new(BENCH_BATCH_SIZE);
    run_optimized(63, &mut forwarder, &mut ring, &mut fq);
    let stats = run_optimized(65, &mut forwarder, &mut ring, &mut fq);
    assert_eq!(stats.tx_packets, 128);
    assert_eq!(stats.recycled_packets, 128);
    assert_eq!(run_optimized(0, &mut forwarder, &mut ring, &mut fq).tx_packets, 128);
    assert_eq!(run_baseline(0, &mut ring, &mut fq), (0, 0));
}

#[test]
fn a_frame_lies_in_the_buffer_or_it_does_not() {
    let (umem, descs) = Umem::new_mock(4096);
    assert!(descs.iter().all(|desc| umem.contains(desc)));
    assert!(umem.contains(&FrameDesc::new(4095, 1)));
    assert!(!umem.contains(&FrameDesc::new(4095, 2)));
    assert!(!umem.contains(&FrameDesc::new(u64::MAX, 1)));
}
