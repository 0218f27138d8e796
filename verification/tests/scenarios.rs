//! Longer scenarios over several modules.
use custos::bench::packet_of;
use custos::common::OperationMode;
use custos::engine::{match_packet, BlockReason, MatchResult};
use custos::grpc::{calculate_checksum, EtherHdr, GrpcHdr, Http2Hdr, IpHdr, TcpHdr};
use custos::packet_gen::TrafficProfile;
use custos::policy::{DimensionBound, DynamicPolicy, Ipv4Addr, Policy, ProtobufRules, ShapeRule};
use custos::protobuf::{ProtoError, ValidationConfig};
use custos::tx::{CompQueue, FillQueue, FrameDesc, InFlight, OptimizedForwarder, TxQueue};
use custos::worker::{LoopTask, PacketLoop};
use std::collections::HashSet;

fn packet(src_ip: [u8; 4], dst_port: u16, payload: &[u8]) -> Vec<u8> {
    let eth = EtherHdr {
        dst_mac: [0; 6],
        src_mac: [0; 6],
        ether_type: 0x0800,
    };
    let mut ip = IpHdr {
        version_ihl: 0x45,
        tos: 0,
        total_len: (54 + payload.len()) as u16,
        id: 1,
        flags_fragment: 0,
        ttl: 64,
        proto: 6,
        hdr_checksum: 0,
        src_ip,
        dst_ip: [192, 168, 1, 2],
    };
    ip.hdr_checksum = calculate_checksum(&ip.as_bytes());
    let tcp = TcpHdr {
        src_port: 12345,
        dst_port,
        seq_num: 100,
        ack_num: 200,
        data_offset_reserved_flags: 5 << 12,
        window_size: 1024,
        checksum: 0,
        urgent_pointer: 0,
    };
    let frame_len = (payload.len() + 5) as u32;
    let http2 = Http2Hdr {
        length: [(frame_len >> 16) as u8, (frame_len >> 8) as u8, frame_len as u8],
        frame_type: 0,
        flags: 0,
        stream_id: 1,
    };
    let grpc = GrpcHdr {
        compression_flag: 0,
        message_len: payload.len() as u32,
    };
    let mut buf = eth.as_bytes();
    buf.extend(ip.as_bytes());
    buf.extend(tcp.as_bytes());
    buf.extend(http2.as_bytes());
    buf.extend(grpc.as_bytes());
    buf.extend_from_slice(payload);
    buf
}

/// A gateway in front of an inference server.
fn gateway_policy() -> DynamicPolicy {
    DynamicPolicy::try_from(Policy {
        version: "1.0.0".to_string(),
        description: None,
        allowed_ports: Some([50051, 8001].into_iter().collect::<HashSet<u16>>()),
        blocked_ips: Some(
            [Ipv4Addr::new(192, 168, 10, 25), Ipv4Addr::new(10, 0, 99, 1)]
                .into_iter()
                .map(|ip| ip.bits)
                .collect(),
        ),
        protobuf_rules: Some(ProtobufRules {
            max_varint_bytes: Some(9),
            max_recursion_depth: Some(4),
            field_allow_list: Some([1, 2, 3, 4].into_iter().collect::<HashSet<u32>>()),
            shape_rules: Some(vec![ShapeRule {
                field_number: 3,
                min_dimensions: Some(2),
                max_dimensions: Some(4),
                max_tensor_elements: Some(1048576),
                exact_shapes: None,
                dimension_bounds: Some(vec![
                    DimensionBound {
                        index: 0,
                        min: Some(1),
                        max: Some(8),
                    },
                    DimensionBound {
                        index: 1,
                        min: Some(3),
                        max: Some(3),
                    },
                ]),
            }]),
        }),
    })
    .unwrap()
}

#[test]
fn a_gateway_lets_images_through() {
    let policy = gateway_policy();
    // [1, 3, 512, 512]
    let image = [0x1a, 6, 1, 3, 0x80, 0x04, 0x80, 0x04];
    for port in [50051, 8001] {
        let buf = packet([1, 2, 3, 4], port, &image);
        assert_eq!(match_packet(&buf, &policy), MatchResult::Allow);
    }
    assert_eq!(
        match_packet(&packet([1, 2, 3, 4], 80, &image), &policy),
        MatchResult::Block(BlockReason::BlockedPort(80))
    );
    assert_eq!(
        match_packet(&packet([10, 0, 99, 1], 50051, &image), &policy),
        MatchResult::Block(BlockReason::BlockedIP(Ipv4Addr::new(10, 0, 99, 1)))
    );
    assert_eq!(
        match_packet(&packet([1, 2, 3, 4], 50051, &[0x28, 1]), &policy),
        MatchResult::Block(BlockReason::DisallowedField(5))
    );
    // [8, 3, 512, 512]
    let batch = [0x1a, 6, 8, 3, 0x80, 0x04, 0x80, 0x04];
    assert_eq!(
        match_packet(&packet([1, 2, 3, 4], 50051, &batch), &policy),
        MatchResult::Block(BlockReason::TensorSizeLimitExceeded {
            field: 3,
            got: 6291456,
            limit: 1048576
        })
    );
    // [1, 4, 8]
    assert_eq!(
        match_packet(&packet([1, 2, 3, 4], 50051, &[0x1a, 3, 1, 4, 8]), &policy),
        MatchResult::Block(BlockReason::DimensionBoundViolation {
            field: 3,
            index: 1,
            val: 4,
            min: Some(3),
            max: Some(3)
        })
    );
}

#[test]
fn nesting_twenty_levels_deep_is_blocked() {
    let mut payload: Vec<u8> = vec![0x08, 1];
    for _ in 0..20 {
        let mut outer = vec![0x12, payload.len() as u8];
        outer.append(&mut payload);
        payload = outer;
    }
    assert_eq!(
        match_packet(&packet([1, 2, 3, 4], 50051, &payload), &gateway_policy()),
        MatchResult::Block(BlockReason::InvalidProto(ProtoError::RecursionLimit))
    );
}

#[test]
fn malformed_lengths_and_varints_are_blocked() {
    let policy = gateway_policy();
    let blocked = |payload: &[u8]| match_packet(&packet([1, 2, 3, 4], 50051, payload), &policy);
    let underflow = MatchResult::Block(BlockReason::InvalidProto(ProtoError::BufferUnderflow));
    let endless = MatchResult::Block(BlockReason::InvalidProto(ProtoError::InvalidVarint));
    // More than ten bytes, all of which carry on.
    assert_eq!(blocked(&[0x08, 0x80, 0x80, 0x80, 0x80, 0x80, 0x80, 0x80, 0x80, 0x80, 0x80, 0x01]), endless);
    // Cut in the middle.
    assert_eq!(blocked(&[0x08, 0x80]), underflow);
    assert_eq!(blocked(&[0x88]), underflow);
    // A length that no message can have.
    assert_eq!(
        blocked(&[0x12, 0xff, 0xff, 0xff, 0xff, 0xff, 0xff, 0xff, 0xff, 0x7f]),
        underflow
    );
}

#[test]
fn no_frame_is_lost_over_a_million_packets() {
    let config = ValidationConfig::default();
    let mut valid = packet_of(TrafficProfile::ValidPacked);
    let mut invalid = packet_of(TrafficProfile::WrongPort);
    let batch: Vec<FrameDesc> = (0..64).map(|i| FrameDesc::new(i, 76)).collect();
    let mut packets = PacketLoop::new(2048, OperationMode::Forward, false);
    let mut sent: Vec<FrameDesc> = Vec::new();
    let mut turn = 0u64;
    while turn < 15_625 {
        match packets.task() {
            LoopTask::Consume => packets.received(&batch),
            LoopTask::Inspect => {
                if packets.current().addr() % 2 == turn % 2 {
                    packets.validate(&mut valid, &config);
                } else {
                    packets.validate(&mut invalid, &config);
                }
            }
            LoopTask::Submit => {
                sent = packets.offered().to_vec();
                packets.produced(sent.len());
            }
            LoopTask::Recycle | LoopTask::Refill => {
                let n = packets.offered().len();
                packets.produced(n);
            }
            LoopTask::CheckTx | LoopTask::CheckFill => packets.wakeup_needed(false),
            LoopTask::Reap => packets.completed(&sent),
            LoopTask::Report => {
                assert_eq!(packets.close_turn(), Ok(()));
                turn += 1;
            }
            other => panic!("unexpected task {:?}", other),
        }
    }
    let stats = packets.stats();
    assert_eq!(stats.rx_packets, 1_000_000);
    assert_eq!(stats.tx_packets, 500_000);
    assert_eq!(stats.drop_validation_failed, 500_000);
    assert_eq!(packets.ledger().frames_in_fill, 2048);
    assert_eq!(packets.ledger().frames_in_tx, 0);
}

#[test]
fn frames_pile_up_and_still_all_come_back() {
    let mut ring = InFlight::new();
    let mut tx = TxQueue::new();
    let mut cq = CompQueue::new();
    let mut fq = FillQueue::new();
    let mut forwarder = OptimizedForwarder::new(64);
    for i in 0..1000 {
        forwarder.forward(&mut tx, &mut ring, FrameDesc::new(i, 100));
    }
    forwarder.flush(&mut tx, &mut ring);
    assert_eq!(ring.len(), 1000);
    let mut back = 0;
    while ring.len() > 0 {
        back += forwarder.reclaim_completed(&mut cq, &mut fq, &mut ring);
    }
    assert_eq!(back, 1000);
    assert_eq!(forwarder.stats().recycled_packets, 1000);
}
