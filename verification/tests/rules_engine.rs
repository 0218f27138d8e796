//! Matching packets against policies.
use custos::engine::{match_packet, BlockReason, MatchResult};
use custos::grpc::{calculate_checksum, EtherHdr, GrpcHdr, Http2Hdr, IpHdr, TcpHdr};
use custos::manager::PolicyManager;
use custos::policy::{
    validate_policy, DimensionBound, DynamicPolicy, Ipv4Addr, Policy, ProtobufRules, ShapeRule,
};
use custos::protobuf::ProtoError;
use std::collections::HashSet;

fn build_mock_packet(
    src_ip: [u8; 4],
    dst_ip: [u8; 4],
    src_port: u16,
    dst_port: u16,
    proto_payload: &[u8],
) -> Vec<u8> {
    let mut buf = vec![0u8; 68 + proto_payload.len()];

    // 1. Ethernet Header (14 bytes)
    let eth = EtherHdr {
        dst_mac: [0u8; 6],
        src_mac: [0u8; 6],
        ether_type: 0x0800,
    };
    buf[0..14].copy_from_slice(&eth.as_bytes());

    // 2. IPv4 Header (20 bytes)
    let mut ip = IpHdr {
        version_ihl: 0x45,
        tos: 0,
        total_len: (54 + proto_payload.len()) as u16,
        id: 1,
        flags_fragment: 0,
        ttl: 64,
        proto: 6, // TCP
        hdr_checksum: 0,
        src_ip,
        dst_ip,
    };
    let csum = calculate_checksum(&ip.as_bytes());
    ip.hdr_checksum = csum;
    buf[14..34].copy_from_slice(&ip.as_bytes());

    // 3. TCP Header (20 bytes)
    let tcp = TcpHdr {
        src_port,
        dst_port,
        seq_num: 100,
        ack_num: 200,
        data_offset_reserved_flags: 5 << 12,
        window_size: 1024,
        checksum: 0,
        urgent_pointer: 0,
    };
    buf[34..54].copy_from_slice(&tcp.as_bytes());

    // 4. HTTP/2 Header (9 bytes)
    let http2_len = (proto_payload.len() + 5) as u32;
    let http2 = Http2Hdr {
        length: [
            ((http2_len >> 16) & 0xff) as u8,
            ((http2_len >> 8) & 0xff) as u8,
            (http2_len & 0xff) as u8,
        ],
        frame_type: 0x0, // DATA
        flags: 0,
        stream_id: 1,
    };
    buf[54..63].copy_from_slice(&http2.as_bytes());

    // 5. gRPC Header (5 bytes)
    let grpc = GrpcHdr {
        compression_flag: 0,
        message_len: proto_payload.len() as u32,
    };
    buf[63..68].copy_from_slice(&grpc.as_bytes());

    // 6. Protobuf Payload
    buf[68..].copy_from_slice(proto_payload);

    buf
}

fn build_mock_packet_with_message_len(
    src_ip: [u8; 4],
    dst_ip: [u8; 4],
    src_port: u16,
    dst_port: u16,
    proto_payload: &[u8],
    message_len: u32,
) -> Vec<u8> {
    let mut buf = build_mock_packet(src_ip, dst_ip, src_port, dst_port, proto_payload);
    let grpc = GrpcHdr {
        compression_flag: 0,
        message_len,
    };
    buf[63..68].copy_from_slice(&grpc.as_bytes());
    buf
}

#[test]
fn test_ip_and_port_validation() {
    let mut allowed_ports = HashSet::new();
    allowed_ports.insert(50051);

    let mut blocked_ips = HashSet::new();
    blocked_ips.insert(Ipv4Addr::new(192, 168, 1, 10).bits);

    let policy = DynamicPolicy::try_from(Policy {
        version: "1.0.0".to_string(),
        description: None,
        allowed_ports: Some(allowed_ports),
        blocked_ips: Some(blocked_ips),
        protobuf_rules: None,
    })
    .unwrap();

    // 1. Allowed packet
    let packet_ok = build_mock_packet([192, 168, 1, 1], [192, 168, 1, 2], 12345, 50051, &[]);
    assert_eq!(match_packet(&packet_ok, &policy), MatchResult::Allow);

    // 2. Blocked by IP
    let packet_bad_ip = build_mock_packet([192, 168, 1, 10], [192, 168, 1, 2], 12345, 50051, &[]);
    assert_eq!(
        match_packet(&packet_bad_ip, &policy),
        MatchResult::Block(BlockReason::BlockedIP(Ipv4Addr::new(192, 168, 1, 10)))
    );

    // 3. Blocked by Port
    let packet_bad_port = build_mock_packet([192, 168, 1, 1], [192, 168, 1, 2], 12345, 8080, &[]);
    assert_eq!(
        match_packet(&packet_bad_port, &policy),
        MatchResult::Block(BlockReason::BlockedPort(8080))
    );

    let mut packet_udp = build_mock_packet([192, 168, 1, 1], [192, 168, 1, 2], 12345, 50051, &[]);
    packet_udp[23] = 17;
    assert_eq!(
        match_packet(&packet_udp, &policy),
        MatchResult::Block(BlockReason::InvalidPacket)
    );
}

#[test]
fn test_field_allow_list() {
    let mut field_allow_list = HashSet::new();
    field_allow_list.insert(1); // field 1 allowed

    let policy = DynamicPolicy::try_from(Policy {
        version: "1.0.0".to_string(),
        description: None,
        allowed_ports: None,
        blocked_ips: None,
        protobuf_rules: Some(ProtobufRules {
            max_varint_bytes: None,
            max_recursion_depth: None,
            field_allow_list: Some(field_allow_list),
            shape_rules: None,
        }),
    })
    .unwrap();

    // Field 1 tag: (1 << 3) | 0 = 8 (Varint)
    // Value: 42
    let payload_ok = vec![0x08, 0x2A];
    let packet_ok = build_mock_packet(
        [192, 168, 1, 1],
        [192, 168, 1, 2],
        12345,
        50051,
        &payload_ok,
    );
    assert_eq!(match_packet(&packet_ok, &policy), MatchResult::Allow);

    // Field 2 tag: (2 << 3) | 0 = 16 (Varint)
    let payload_bad = vec![0x10, 0x2A];
    let packet_bad = build_mock_packet(
        [192, 168, 1, 1],
        [192, 168, 1, 2],
        12345,
        50051,
        &payload_bad,
    );
    assert_eq!(
        match_packet(&packet_bad, &policy),
        MatchResult::Block(BlockReason::DisallowedField(2))
    );
}

#[test]
fn test_shape_dimension_bounds() {
    let policy = DynamicPolicy::try_from(Policy {
        version: "1.0.0".to_string(),
        description: None,
        allowed_ports: None,
        blocked_ips: None,
        protobuf_rules: Some(ProtobufRules {
            max_varint_bytes: None,
            max_recursion_depth: None,
            field_allow_list: None,
            shape_rules: Some(vec![ShapeRule {
                field_number: 1,
                min_dimensions: Some(2),
                max_dimensions: Some(4),
                max_tensor_elements: None,
                exact_shapes: None,
                dimension_bounds: None,
            }]),
        }),
    })
    .unwrap();

    // 1. Packed Shape [128, 128] -> 2 dimensions (OK)
    // Tag: (1 << 3) | 2 = 10 (0x0A)
    // Length: 4 bytes
    // Values: 128 (0x80, 0x01), 128 (0x80, 0x01)
    let payload_ok = vec![0x0A, 0x04, 0x80, 0x01, 0x80, 0x01];
    let packet_ok = build_mock_packet(
        [192, 168, 1, 1],
        [192, 168, 1, 2],
        12345,
        50051,
        &payload_ok,
    );
    assert_eq!(match_packet(&packet_ok, &policy), MatchResult::Allow);

    // 2. Packed Shape [224] -> 1 dimension (Too small)
    // Length: 2 bytes
    // Values: 224 (0xE0, 0x01)
    let payload_too_small = vec![0x0A, 0x02, 0xE0, 0x01];
    let packet_too_small = build_mock_packet(
        [192, 168, 1, 1],
        [192, 168, 1, 2],
        12345,
        50051,
        &payload_too_small,
    );
    assert_eq!(
        match_packet(&packet_too_small, &policy),
        MatchResult::Block(BlockReason::ShapeDimensionTooSmall {
            field: 1,
            got: 1,
            limit: 2
        })
    );

    // 3. Packed Shape [1, 3, 224, 224, 224] -> 5 dimensions (Too large)
    let payload_too_large = vec![0x0A, 0x07, 0x01, 0x03, 0xE0, 0x01, 0xE0, 0x01, 0xE0, 0x01];
    let packet_too_large = build_mock_packet(
        [192, 168, 1, 1],
        [192, 168, 1, 2],
        12345,
        50051,
        &payload_too_large,
    );
    assert_eq!(
        match_packet(&packet_too_large, &policy),
        MatchResult::Block(BlockReason::ShapeDimensionLimitExceeded {
            field: 1,
            got: 5,
            limit: 4
        })
    );

    let payload_unpacked_ok = vec![0x08, 0x80, 0x01, 0x08, 0x80, 0x01];
    let packet_unpacked_ok = build_mock_packet(
        [192, 168, 1, 1],
        [192, 168, 1, 2],
        12345,
        50051,
        &payload_unpacked_ok,
    );
    assert_eq!(
        match_packet(&packet_unpacked_ok, &policy),
        MatchResult::Allow
    );
}

#[test]
fn test_grpc_message_len_bounds_protobuf_walk() {
    let mut field_allow_list = HashSet::new();
    field_allow_list.insert(1);

    let policy = DynamicPolicy::try_from(Policy {
        version: "1.0.0".to_string(),
        description: None,
        allowed_ports: None,
        blocked_ips: None,
        protobuf_rules: Some(ProtobufRules {
            max_varint_bytes: None,
            max_recursion_depth: None,
            field_allow_list: Some(field_allow_list),
            shape_rules: None,
        }),
    })
    .unwrap();

    let payload = vec![0x08, 0x2A, 0x10, 0x2A];
    let packet = build_mock_packet_with_message_len(
        [192, 168, 1, 1],
        [192, 168, 1, 2],
        12345,
        50051,
        &payload,
        2,
    );

    assert_eq!(match_packet(&packet, &policy), MatchResult::Allow);
}

#[test]
fn test_grpc_message_len_bounds_scalar_skip() {
    let mut field_allow_list = HashSet::new();
    field_allow_list.insert(1);

    let policy = DynamicPolicy::try_from(Policy {
        version: "1.0.0".to_string(),
        description: None,
        allowed_ports: None,
        blocked_ips: None,
        protobuf_rules: Some(ProtobufRules {
            max_varint_bytes: None,
            max_recursion_depth: None,
            field_allow_list: Some(field_allow_list),
            shape_rules: None,
        }),
    })
    .unwrap();

    let payload = vec![0x09, 0x01, 0x02, 0x03, 0x04, 0x05, 0x06, 0x07, 0x08];
    let packet = build_mock_packet_with_message_len(
        [192, 168, 1, 1],
        [192, 168, 1, 2],
        12345,
        50051,
        &payload,
        2,
    );

    assert_eq!(
        match_packet(&packet, &policy),
        MatchResult::Block(BlockReason::InvalidProto(
            ProtoError::BufferUnderflow
        ))
    );
}

#[test]
fn test_tensor_size_constraints() {
    let policy = DynamicPolicy::try_from(Policy {
        version: "1.0.0".to_string(),
        description: None,
        allowed_ports: None,
        blocked_ips: None,
        protobuf_rules: Some(ProtobufRules {
            max_varint_bytes: None,
            max_recursion_depth: None,
            field_allow_list: None,
            shape_rules: Some(vec![ShapeRule {
                field_number: 1,
                min_dimensions: None,
                max_dimensions: None,
                max_tensor_elements: Some(10000), // Limit is 10k elements
                exact_shapes: None,
                dimension_bounds: None,
            }]),
        }),
    })
    .unwrap();

    // [64, 64] = 4096 (OK)
    let payload_ok = vec![0x0A, 0x02, 0x40, 0x40];
    let packet_ok = build_mock_packet(
        [192, 168, 1, 1],
        [192, 168, 1, 2],
        12345,
        50051,
        &payload_ok,
    );
    assert_eq!(match_packet(&packet_ok, &policy), MatchResult::Allow);

    // [128, 128] = 16384 (Too large)
    // 128 in varint: 0x80, 0x01
    let payload_bad = vec![0x0A, 0x04, 0x80, 0x01, 0x80, 0x01];
    let packet_bad = build_mock_packet(
        [192, 168, 1, 1],
        [192, 168, 1, 2],
        12345,
        50051,
        &payload_bad,
    );
    assert_eq!(
        match_packet(&packet_bad, &policy),
        MatchResult::Block(BlockReason::TensorSizeLimitExceeded {
            field: 1,
            got: 16384,
            limit: 10000
        })
    );

    let payload_split_bad = vec![0x0A, 0x02, 0xE8, 0x07, 0x0A, 0x02, 0xE8, 0x07];
    let packet_split_bad = build_mock_packet(
        [192, 168, 1, 1],
        [192, 168, 1, 2],
        12345,
        50051,
        &payload_split_bad,
    );
    assert_eq!(
        match_packet(&packet_split_bad, &policy),
        MatchResult::Block(BlockReason::TensorSizeLimitExceeded {
            field: 1,
            got: 1000000,
            limit: 10000
        })
    );
}

#[test]
fn test_exact_shapes() {
    let policy = DynamicPolicy::try_from(Policy {
        version: "1.0.0".to_string(),
        description: None,
        allowed_ports: None,
        blocked_ips: None,
        protobuf_rules: Some(ProtobufRules {
            max_varint_bytes: None,
            max_recursion_depth: None,
            field_allow_list: None,
            shape_rules: Some(vec![ShapeRule {
                field_number: 1,
                min_dimensions: None,
                max_dimensions: None,
                max_tensor_elements: None,
                exact_shapes: Some(vec![vec![1, 3, 224, 224], vec![1, 3, 256, 256]]),
                dimension_bounds: None,
            }]),
        }),
    })
    .unwrap();

    // Shape [1, 3, 224, 224] (OK)
    let payload_ok = vec![0x0A, 0x06, 0x01, 0x03, 0xE0, 0x01, 0xE0, 0x01];
    let packet_ok = build_mock_packet(
        [192, 168, 1, 1],
        [192, 168, 1, 2],
        12345,
        50051,
        &payload_ok,
    );
    assert_eq!(match_packet(&packet_ok, &policy), MatchResult::Allow);

    // Shape [1, 3, 128, 128] (Mismatch)
    let payload_bad = vec![0x0A, 0x06, 0x01, 0x03, 0x80, 0x01, 0x80, 0x01];
    let packet_bad = build_mock_packet(
        [192, 168, 1, 1],
        [192, 168, 1, 2],
        12345,
        50051,
        &payload_bad,
    );
    assert_eq!(
        match_packet(&packet_bad, &policy),
        MatchResult::Block(BlockReason::ExactShapeMismatch { field: 1 })
    );
}

#[test]
fn test_dimension_index_bounds() {
    let policy = DynamicPolicy::try_from(Policy {
        version: "1.0.0".to_string(),
        description: None,
        allowed_ports: None,
        blocked_ips: None,
        protobuf_rules: Some(ProtobufRules {
            max_varint_bytes: None,
            max_recursion_depth: None,
            field_allow_list: None,
            shape_rules: Some(vec![ShapeRule {
                field_number: 1,
                min_dimensions: None,
                max_dimensions: None,
                max_tensor_elements: None,
                exact_shapes: None,
                dimension_bounds: Some(vec![
                    DimensionBound {
                        index: 0, // Batch size must be [1, 8]
                        min: Some(1),
                        max: Some(8),
                    },
                    DimensionBound {
                        index: 1, // Channels must be exactly 3
                        min: Some(3),
                        max: Some(3),
                    },
                ]),
            }]),
        }),
    })
    .unwrap();

    // Shape [4, 3, 224, 224] (OK)
    let payload_ok = vec![0x0A, 0x06, 0x04, 0x03, 0xE0, 0x01, 0xE0, 0x01];
    let packet_ok = build_mock_packet(
        [192, 168, 1, 1],
        [192, 168, 1, 2],
        12345,
        50051,
        &payload_ok,
    );
    assert_eq!(match_packet(&packet_ok, &policy), MatchResult::Allow);

    // Shape [16, 3, 224, 224] (Batch size 16 exceeds limit 8)
    let payload_bad_batch = vec![0x0A, 0x06, 0x10, 0x03, 0xE0, 0x01, 0xE0, 0x01];
    let packet_bad_batch = build_mock_packet(
        [192, 168, 1, 1],
        [192, 168, 1, 2],
        12345,
        50051,
        &payload_bad_batch,
    );
    assert_eq!(
        match_packet(&packet_bad_batch, &policy),
        MatchResult::Block(BlockReason::DimensionBoundViolation {
            field: 1,
            index: 0,
            val: 16,
            min: Some(1),
            max: Some(8)
        })
    );

    // Shape [4, 1, 224, 224] (Channels size 1 is below limit 3)
    let payload_bad_chan = vec![0x0A, 0x06, 0x04, 0x01, 0xE0, 0x01, 0xE0, 0x01];
    let packet_bad_chan = build_mock_packet(
        [192, 168, 1, 1],
        [192, 168, 1, 2],
        12345,
        50051,
        &payload_bad_chan,
    );
    assert_eq!(
        match_packet(&packet_bad_chan, &policy),
        MatchResult::Block(BlockReason::DimensionBoundViolation {
            field: 1,
            index: 1,
            val: 1,
            min: Some(3),
            max: Some(3)
        })
    );
}

#[test]
fn test_policy_manager_hot_reload() {
    let policy_v1 = DynamicPolicy::try_from(Policy {
        version: "1.0.0".to_string(),
        description: None,
        allowed_ports: None,
        blocked_ips: None,
        protobuf_rules: Some(ProtobufRules {
            max_varint_bytes: None,
            max_recursion_depth: None,
            field_allow_list: None,
            shape_rules: Some(vec![ShapeRule {
                field_number: 1,
                min_dimensions: None,
                max_dimensions: Some(4), // Rank <= 4
                max_tensor_elements: None,
                exact_shapes: None,
                dimension_bounds: None,
            }]),
        }),
    })
    .unwrap();

    let manager = PolicyManager::new(policy_v1);

    // Shape [1, 3, 224, 224] (Rank 4, OK)
    let payload = vec![0x0A, 0x06, 0x01, 0x03, 0xE0, 0x01, 0xE0, 0x01];
    let packet = build_mock_packet([192, 168, 1, 1], [192, 168, 1, 2], 12345, 50051, &payload);

    // Match against current policy (OK)
    assert_eq!(
        match_packet(&packet, &manager.get_policy()),
        MatchResult::Allow
    );

    // Swap/reload with version 2 policy restricting Rank <= 2
    let policy_v2 = DynamicPolicy::try_from(Policy {
        version: "2.0.0".to_string(),
        description: None,
        allowed_ports: None,
        blocked_ips: None,
        protobuf_rules: Some(ProtobufRules {
            max_varint_bytes: None,
            max_recursion_depth: None,
            field_allow_list: None,
            shape_rules: Some(vec![ShapeRule {
                field_number: 1,
                min_dimensions: None,
                max_dimensions: Some(2), // Rank <= 2
                max_tensor_elements: None,
                exact_shapes: None,
                dimension_bounds: None,
            }]),
        }),
    })
    .unwrap();

    manager.reload(policy_v2);

    // Verify policy reloaded to 2.0.0
    assert_eq!(manager.get_policy().version, "2.0.0");

    // Match the same packet again (should now be BLOCKED due to Rank 4 > 2)
    assert_eq!(
        match_packet(&packet, &manager.get_policy()),
        MatchResult::Block(BlockReason::ShapeDimensionLimitExceeded {
            field: 1,
            got: 4,
            limit: 2
        })
    );
}

fn with_rules(rules: Vec<ShapeRule>) -> Policy {
    Policy {
        version: "1.0.0".to_string(),
        description: None,
        allowed_ports: None,
        blocked_ips: None,
        protobuf_rules: Some(ProtobufRules {
            max_varint_bytes: None,
            max_recursion_depth: None,
            field_allow_list: None,
            shape_rules: Some(rules),
        }),
    }
}

fn rule(field_number: u32) -> ShapeRule {
    ShapeRule {
        field_number,
        min_dimensions: None,
        max_dimensions: None,
        max_tensor_elements: None,
        exact_shapes: None,
        dimension_bounds: None,
    }
}

fn matched(policy: Policy, payload: &[u8]) -> MatchResult {
    let policy = DynamicPolicy::try_from(policy).unwrap();
    let packet = build_mock_packet([192, 168, 1, 1], [192, 168, 1, 2], 12345, 50051, payload);
    match_packet(&packet, &policy)
}

#[test]
fn every_policy_message() {
    let message = |p: Policy| validate_policy(&p).unwrap_err();
    let mut p = with_rules(vec![]);
    p.version = " \t".to_string();
    assert_eq!(message(p), "Policy version cannot be empty");

    for n in [0, 11] {
        let mut p = with_rules(vec![]);
        p.protobuf_rules.as_mut().unwrap().max_varint_bytes = Some(n);
        assert_eq!(message(p), "max_varint_bytes must be between 1 and 10");
    }
    let mut p = with_rules(vec![]);
    p.protobuf_rules.as_mut().unwrap().max_recursion_depth = Some(101);
    assert_eq!(message(p), "max_recursion_depth cannot exceed 100");

    let mut r = rule(3);
    r.min_dimensions = Some(4);
    r.max_dimensions = Some(2);
    assert_eq!(
        message(with_rules(vec![r])),
        "Shape rule for field 3: min_dimensions (4) cannot exceed max_dimensions (2)"
    );
    let mut r = rule(3);
    r.dimension_bounds = Some(vec![DimensionBound {
        index: 16,
        min: None,
        max: None,
    }]);
    assert_eq!(
        message(with_rules(vec![rule(1), r])),
        "Dimension bound index 16 for field 3 exceeds maximum supported dimensions (16)"
    );
    let mut r = rule(3);
    r.dimension_bounds = Some(vec![DimensionBound {
        index: 2,
        min: Some(5),
        max: Some(-5),
    }]);
    assert_eq!(
        message(with_rules(vec![r])),
        "Dimension bound for field 3 index 2: min (5) cannot exceed max (-5)"
    );
    let mut r = rule(3);
    r.exact_shapes = Some(vec![vec![1; 17]]);
    assert_eq!(
        message(with_rules(vec![r])),
        "Exact shape [1, 1, 1, 1, 1, 1, 1, 1, 1, 1, 1, 1, 1, 1, 1, 1, 1] for field 3 exceeds maximum supported dimensions (16)"
    );
    let mut r = rule(3);
    r.exact_shapes = Some(vec![vec![1, 2], vec![1, 0, -2]]);
    assert_eq!(
        message(with_rules(vec![r])),
        "Exact shape [1, 0, -2] for field 3 contains non-positive dimensions"
    );
    assert_eq!(validate_policy(&with_rules(vec![rule(1)])), Ok(()));
}

#[test]
fn the_last_rule_for_a_field_counts() {
    let mut first = rule(1);
    first.max_dimensions = Some(1);
    let mut second = rule(1);
    second.max_dimensions = Some(3);
    let policy = DynamicPolicy::try_from(with_rules(vec![first, second])).unwrap();
    assert_eq!(policy.shape_rules.len(), 1);
    assert_eq!(policy.shape_rules[&1].max_dimensions, Some(3));
    assert_eq!(policy.max_varint_bytes, 9);
    assert_eq!(policy.max_recursion_depth, 3);
}

#[test]
fn both_addresses_are_looked_at() {
    let mut blocked = HashSet::new();
    blocked.insert(Ipv4Addr::new(10, 0, 99, 1).bits);
    let mut policy = with_rules(vec![]);
    policy.blocked_ips = Some(blocked);
    let policy = DynamicPolicy::try_from(policy).unwrap();
    let to = build_mock_packet([1, 1, 1, 1], [10, 0, 99, 1], 1, 2, &[]);
    assert_eq!(
        match_packet(&to, &policy),
        MatchResult::Block(BlockReason::BlockedIP(Ipv4Addr::new(10, 0, 99, 1)))
    );
}

#[test]
fn truncated_packets_are_invalid() {
    let policy = DynamicPolicy::try_from(with_rules(vec![rule(1)])).unwrap();
    let packet = build_mock_packet([1; 4], [2; 4], 1, 2, &[0x08, 1]);
    for len in 0..packet.len() {
        assert_eq!(
            match_packet(&packet[..len], &policy),
            MatchResult::Block(BlockReason::InvalidPacket)
        );
    }
    assert_eq!(match_packet(&packet, &policy), MatchResult::Allow);
}

#[test]
fn what_looks_like_a_message_and_is_none_is_passed_over() {
    // Field 2 holds bytes that are no message.
    assert_eq!(
        matched(with_rules(vec![rule(1)]), &[0x12, 3, 0xff, 0xff, 0xff, 0x08, 7]),
        MatchResult::Allow
    );
    // A shape inside a nested message is not held against the rules of the top
    // level: what is wrong there is passed over.
    let mut r = rule(1);
    r.max_dimensions = Some(1);
    assert_eq!(
        matched(with_rules(vec![r]), &[0x12, 4, 0x0a, 2, 1, 1]),
        MatchResult::Allow
    );
    // Too deep a nesting is not.
    assert_eq!(
        matched(
            with_rules(vec![rule(1)]),
            &[0x12, 8, 0x12, 6, 0x12, 4, 0x12, 2, 0x08, 1]
        ),
        MatchResult::Block(BlockReason::InvalidProto(ProtoError::RecursionLimit))
    );
}

#[test]
fn shapes_that_cannot_be_read() {
    let blocked = |payload: &[u8]| matched(with_rules(vec![rule(1)]), payload);
    assert_eq!(
        blocked(&[0x0a, 1, 0]),
        MatchResult::Block(BlockReason::InvalidProto(ProtoError::ShapeValueInvalid))
    );
    assert_eq!(
        blocked(&[0x0d, 1, 2, 3, 4]),
        MatchResult::Block(BlockReason::InvalidProto(ProtoError::InvalidWireType))
    );
    let mut many = vec![0x0a, 17];
    many.extend_from_slice(&[1; 17]);
    assert_eq!(
        blocked(&many),
        MatchResult::Block(BlockReason::InvalidProto(ProtoError::ShapeDimensionLimit))
    );
    assert_eq!(
        blocked(&[0x08, 0xff, 0xff, 0xff, 0xff, 0xff, 0xff, 0xff, 0xff, 0xff, 0xff, 0x01]),
        MatchResult::Block(BlockReason::InvalidProto(ProtoError::InvalidVarint))
    );
    assert_eq!(
        blocked(&[0x0a, 9, 1]),
        MatchResult::Block(BlockReason::InvalidProto(ProtoError::BufferUnderflow))
    );
    // A dimension that begins in the shape may end behind it, but not behind the
    // message.
    assert_eq!(blocked(&[0x0a, 1, 0xe0, 0x01]), MatchResult::Allow);
    assert_eq!(
        blocked(&[0x0a, 1, 0xe0]),
        MatchResult::Block(BlockReason::InvalidProto(ProtoError::BufferUnderflow))
    );
}

#[test]
fn a_policy_without_limits_allows_what_is_ipv4() {
    let mut policy = with_rules(vec![]);
    policy.protobuf_rules = None;
    let policy = DynamicPolicy::try_from(policy).unwrap();
    let mut packet = vec![0u8; 34];
    packet[12] = 0x08;
    assert_eq!(match_packet(&packet, &policy), MatchResult::Allow);
    packet[13] = 0x06;
    assert_eq!(
        match_packet(&packet, &policy),
        MatchResult::Block(BlockReason::InvalidPacket)
    );
}

#[test]
fn a_clone_judges_as_the_policy_does() {
    let policy = DynamicPolicy::try_from(Policy {
        version: "1.2.0".to_string(),
        description: None,
        allowed_ports: Some(HashSet::from([50051, 50052])),
        blocked_ips: Some(HashSet::from([Ipv4Addr::new(10, 0, 0, 9).bits])),
        protobuf_rules: Some(ProtobufRules {
            max_varint_bytes: Some(5),
            max_recursion_depth: Some(3),
            field_allow_list: Some(HashSet::from([1, 2])),
            shape_rules: Some(vec![ShapeRule {
                field_number: 2,
                min_dimensions: Some(1),
                max_dimensions: Some(2),
                max_tensor_elements: Some(100),
                exact_shapes: Some(vec![vec![2, 3], vec![4]]),
                dimension_bounds: None,
            }]),
        }),
    })
    .unwrap();
    let copy = policy.clone();
    assert_eq!(copy.version, policy.version);
    assert_eq!(copy.allowed_ports, policy.allowed_ports);
    assert_eq!(copy.blocked_ips, policy.blocked_ips);
    assert_eq!(copy.max_varint_bytes, policy.max_varint_bytes);
    assert_eq!(copy.max_recursion_depth, policy.max_recursion_depth);
    assert_eq!(copy.field_allow_list, policy.field_allow_list);
    assert_eq!(copy.shape_rules.len(), 1);
    assert_eq!(
        copy.shape_rules[&2].exact_shapes,
        Some(vec![vec![2, 3], vec![4]])
    );

    let payloads: [&[u8]; 4] = [
        &[0x08, 0x2A],
        &[0x18, 0x2A],
        &[0x12, 0x02, 0x02, 0x03],
        &[0x12, 0x02, 0x03, 0x02],
    ];
    let expected = [true, false, true, false];
    for (payload, allowed) in payloads.iter().zip(expected) {
        let packet = build_mock_packet([10, 0, 0, 1], [10, 0, 0, 2], 1000, 50051, payload);
        let verdict = match_packet(&packet, &copy);
        assert_eq!(verdict == MatchResult::Allow, allowed);
        assert_eq!(verdict, match_packet(&packet, &policy));
    }
    let blocked = build_mock_packet([10, 0, 0, 9], [10, 0, 0, 2], 1000, 50051, &[]);
    assert_eq!(
        match_packet(&blocked, &copy),
        MatchResult::Block(BlockReason::BlockedIP(Ipv4Addr::new(10, 0, 0, 9)))
    );
}
