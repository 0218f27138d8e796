//! The packet loop.
use custos::bench::packet_of;
use custos::common::OperationMode;
use custos::grpc::ParseError;
use custos::packet_gen::TrafficProfile;
use custos::protobuf::ValidationConfig;
use custos::tx::FrameDesc;
use custos::worker::{HealthError, LoopTask, PacketLoop};

fn frames(n: u64) -> Vec<FrameDesc> {
    (0..n).map(|i| FrameDesc::new(i * 2048, 76)).collect()
}

/// Works the rings as a kernel that always has room.
fn finish_turn(packets: &mut PacketLoop, completed: &[FrameDesc]) {
    loop {
        match packets.task() {
            LoopTask::Recycle | LoopTask::Submit | LoopTask::Refill => {
                let n = packets.offered().len();
                packets.produced(n);
            }
            LoopTask::CheckTx | LoopTask::CheckFill => packets.wakeup_needed(false),
            LoopTask::Reap => packets.completed(completed),
            LoopTask::Report => {
                assert_eq!(packets.close_turn(), Ok(()));
                return;
            }
            other => panic!("unexpected task {:?}", other),
        }
    }
}

#[test]
fn valid_packets_are_sent_and_others_given_back() {
    let config = ValidationConfig::default();
    let mut packets = PacketLoop::new(8, OperationMode::Echo, false);
    assert_eq!(packets.task(), LoopTask::Consume);
    packets.received(&frames(3));
    assert_eq!(packets.ledger().frames_in_fill, 5);
    assert_eq!(packets.ledger().frames_in_rx, 3);

    let mut valid = packet_of(TrafficProfile::ValidPacked);
    assert_eq!(packets.current(), FrameDesc::new(0, 76));
    packets.validate(&mut valid, &config);
    assert_eq!(&valid[0..12], &[2, 0, 0, 0, 0, 1, 0xff, 0xff, 0xff, 0xff, 0xff, 0xff]);

    let mut invalid = packet_of(TrafficProfile::NonIpv4);
    let before = invalid.clone();
    packets.validate(&mut invalid, &config);
    assert_eq!(invalid, before);
    assert_eq!(packets.task(), LoopTask::Recycle);
    assert_eq!(packets.offered(), &[FrameDesc::new(2048, 76)]);
    packets.produced(1);
    assert_eq!(packets.ledger().frames_in_fill, 6);

    let mut valid = packet_of(TrafficProfile::ValidUnpacked);
    packets.validate(&mut valid, &config);
    assert_eq!(packets.task(), LoopTask::Submit);
    assert_eq!(
        packets.offered(),
        &[FrameDesc::new(0, 76), FrameDesc::new(4096, 76)]
    );
    finish_turn(&mut packets, &[FrameDesc::new(0, 76)]);

    let ledger = packets.ledger();
    assert_eq!(ledger.frames_in_fill, 7);
    assert_eq!(ledger.frames_in_rx, 0);
    assert_eq!(ledger.frames_in_tx, 1);
    assert_eq!(ledger.frames_in_comp, 0);
    assert_eq!(ledger.total_tx_packets, 2);
    assert_eq!(ledger.total_recycled_packets, 1);
    let stats = packets.stats();
    assert_eq!(stats.rx_packets, 3);
    assert_eq!(stats.rx_bytes, 76 + 76 + 74);
    assert_eq!(stats.tx_packets, 2);
    assert_eq!(stats.tx_bytes, 152);
    assert_eq!(stats.recycled_packets, 1);
    assert_eq!(stats.drop_validation_failed, 1);
    assert_eq!(stats.err_non_ipv4, 1);
    assert_eq!(stats.stat_protobuf, 2);
    assert_eq!(stats.hist_payload_65_256, 3);
}

#[test]
fn a_full_ring_is_woken_up_and_offered_the_rest_again() {
    let mut packets = PacketLoop::new(4, OperationMode::Forward, false);
    packets.received(&frames(2));
    packets.relay(&mut [0u8; 60]);
    packets.relay(&mut [0u8; 60]);
    assert_eq!(packets.task(), LoopTask::Submit);
    packets.produced(0);
    assert_eq!(packets.task(), LoopTask::CheckSubmit);
    packets.wakeup_needed(true);
    assert_eq!(packets.task(), LoopTask::WakeSubmit);
    packets.woken();
    packets.produced(1);
    assert_eq!(packets.task(), LoopTask::Submit);
    assert_eq!(packets.offered(), &[FrameDesc::new(2048, 76)]);
    packets.produced(0);
    packets.wakeup_needed(false);
    packets.produced(1);
    assert_eq!(packets.task(), LoopTask::CheckTx);
    packets.wakeup_needed(true);
    assert_eq!(packets.task(), LoopTask::WakeTx);
    packets.woken();
    assert_eq!(packets.task(), LoopTask::Reap);
    packets.completed(&frames(2));
    packets.produced(0);
    assert_eq!(packets.task(), LoopTask::CheckRefill);
    packets.wakeup_needed(true);
    packets.woken();
    packets.produced(2);
    assert_eq!(packets.task(), LoopTask::CheckFill);
    packets.wakeup_needed(true);
    assert_eq!(packets.task(), LoopTask::WakeFill);
    packets.woken();
    assert_eq!(packets.close_turn(), Ok(()));
    assert_eq!(packets.ledger().frames_in_fill, 4);
    assert_eq!(packets.stats().rx_bytes, 120);
}

#[test]
fn a_loop_that_discards_gives_every_frame_back() {
    let mut packets = PacketLoop::new(4, OperationMode::Drop, true);
    packets.received(&frames(3));
    assert_eq!(packets.task(), LoopTask::Recycle);
    packets.produced(2);
    assert_eq!(packets.offered().len(), 1);
    packets.produced(0);
    assert_eq!(packets.task(), LoopTask::CheckRecycle);
    packets.wakeup_needed(true);
    assert_eq!(packets.task(), LoopTask::WakeRecycle);
    packets.woken();
    packets.produced(1);
    assert_eq!(packets.task(), LoopTask::Reap);
    finish_turn(&mut packets, &[]);
    assert_eq!(packets.discarded(), 3);
    assert_eq!(packets.ledger().frames_in_fill, 4);
    assert_eq!(packets.stats().rx_packets, 3);
    assert_eq!(packets.stats().rx_bytes, 0);
    assert_eq!(packets.stats().tx_packets, 0);
}

#[test]
fn headers_alone_are_checked_and_drops_can_be_simulated() {
    let mut packets = PacketLoop::new(4, OperationMode::Forward, false);
    packets.received(&frames(3));
    let mut buf = packet_of(TrafficProfile::InvalidVarint);
    let error = packets.check_headers(&buf, 50051);
    assert_eq!(error, None);
    packets.settle_headers(&mut buf, error, false);
    assert_eq!(packets.task(), LoopTask::Inspect);

    let error = packets.check_headers(&buf, 50051);
    packets.settle_headers(&mut buf, error, true);
    assert_eq!(packets.task(), LoopTask::Recycle);
    packets.produced(1);

    let error = packets.check_headers(&buf, 1);
    assert_eq!(error, Some(ParseError::WrongPort));
    packets.settle_headers(&mut buf, error, true);
    finish_turn(&mut packets, &[]);
    assert_eq!(packets.drop_simulated(), 1);
    let stats = packets.stats();
    assert_eq!(stats.stat_grpc, 2);
    assert_eq!(stats.stat_protobuf, 0);
    assert_eq!(stats.drop_validation_failed, 1);
    assert_eq!(stats.err_wrong_port, 1);
    assert_eq!(stats.tx_packets, 1);
    assert_eq!(stats.hist_payload_65_256, 0);
}

#[test]
fn frames_that_do_not_come_back_are_noticed() {
    let mut packets = PacketLoop::new(1, OperationMode::Forward, false);
    packets.received(&[]);
    assert_eq!(packets.task(), LoopTask::Reap);
    // More frames come back than were ever sent.
    packets.completed(&frames(2));
    packets.produced(2);
    packets.wakeup_needed(false);
    assert_eq!(packets.check_health(), Err(HealthError::Starvation));
    assert_eq!(packets.close_turn(), Err(HealthError::Starvation));
    assert_eq!(packets.task(), LoopTask::Report);
    // A loop that does not look at the counts goes on.
    packets.next_turn();
    assert_eq!(packets.task(), LoopTask::Consume);
    assert_eq!(
        HealthError::Starvation.message(),
        "Starvation assertion failed! Resource leak detected."
    );
    assert_eq!(HealthError::Leak.message(), "Descriptor leak detected!");
    let mut ledger = packets.ledger();
    ledger.frames_in_tx += 1;
    assert_eq!(ledger.check_health(1), Err(HealthError::Leak));
}

#[test]
fn a_window_keeps_the_histogram() {
    let mut packets = PacketLoop::new(4, OperationMode::Forward, false);
    packets.received(&frames(1));
    packets.validate(
        &mut packet_of(TrafficProfile::ValidPacked),
        &ValidationConfig::default(),
    );
    finish_turn(&mut packets, &[]);
    packets.start_window();
    assert_eq!(packets.stats().rx_packets, 0);
    assert_eq!(packets.stats().stat_protobuf, 0);
    assert_eq!(packets.stats().hist_payload_65_256, 1);
    assert_eq!(packets.ledger().total_tx_packets, 1);
    assert!(packets.has_room());
}

#[test]
fn batches_reach_the_rings_in_order() {
    let config = ValidationConfig::default();
    let mut packets = PacketLoop::new(16, OperationMode::Forward, false);
    let (mut sent, mut returned) = (Vec::new(), Vec::new());
    packets.received(&frames(6));
    loop {
        match packets.task() {
            LoopTask::Inspect => {
                let kind = if packets.current().addr() / 2048 % 3 == 1 {
                    TrafficProfile::NonIpv4
                } else {
                    TrafficProfile::ValidPacked
                };
                packets.validate(&mut packet_of(kind), &config);
            }
            LoopTask::Recycle => {
                returned.push(packets.offered()[0]);
                packets.produced(1);
            }
            LoopTask::Submit => {
                sent.push(packets.offered()[0]);
                packets.produced(1);
            }
            _ => break,
        }
    }
    let all = frames(6);
    assert_eq!(sent, vec![all[0], all[2], all[3], all[5]]);
    assert_eq!(returned, vec![all[1], all[4]]);
}
