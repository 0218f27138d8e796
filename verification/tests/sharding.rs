//! Workers that share nothing.
use custos::sharding::{forward_received, run_shard_turn, ShardResources, SHARD_BATCH_SIZE};
use custos::tx::{FrameDesc, InFlight, OptimizedForwarder};

fn filled() -> ShardResources {
    let mut resources = ShardResources::new_mock();
    for i in 0..32u64 {
        let desc = FrameDesc::new(i * 2048, 14);
        let bytes: Vec<u8> = (0..14).map(|b| b + i as u8).collect();
        resources
            .umem
            .data_mut(&desc)
            .contents_mut()
            .copy_from_slice(&bytes);
    }
    resources
}

#[test]
fn packets_go_back_to_where_they_came_from() {
    let mut resources = filled();
    let mut forwarder = OptimizedForwarder::new(SHARD_BATCH_SIZE);
    let mut ring = InFlight::new();
    let received: Vec<FrameDesc> = (0..3).map(|i| FrameDesc::new(i * 2048, 14)).collect();
    let recycled = run_shard_turn(&mut resources, &mut forwarder, &mut ring, &received);
    assert_eq!(recycled, 0);
    assert_eq!(ring.len(), 3);
    assert_eq!(
        resources.umem.data(&received[1]).contents(),
        &[7, 8, 9, 10, 11, 12, 1, 2, 3, 4, 5, 6, 13, 14]
    );
    assert_eq!(
        resources.umem.data(&FrameDesc::new(3 * 2048, 14)).contents()[0],
        3
    );
    // The next turn puts them into use again.
    let recycled = run_shard_turn(&mut resources, &mut forwarder, &mut ring, &[]);
    assert_eq!(recycled, 3);
    assert_eq!(ring.len(), 0);
    assert_eq!(forwarder.stats().tx_packets, 3);
    assert_eq!(forwarder.stats().recycled_packets, 3);
}

#[test]
fn whole_batches_go_out_at_once() {
    let mut resources = filled();
    let mut forwarder = OptimizedForwarder::new(4);
    let mut ring = InFlight::new();
    let received: Vec<FrameDesc> = (0..10).map(|i| FrameDesc::new(i * 2048, 14)).collect();
    forward_received(&mut resources, &mut forwarder, &mut ring, &received);
    assert_eq!(ring.len(), 8);
    assert_eq!(forwarder.pending(), &received[8..]);
}
