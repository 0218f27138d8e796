//! Validation of payloads.
use custos::grpc::{calculate_checksum, EtherHdr, GrpcHdr, Http2Hdr, IpHdr, ParseError, TcpHdr};
use custos::protobuf::{
    element_product, read_varint, skip_field, validate_grpc_protobuf_packet, ProtoError,
    ValidationConfig, ValidationError,
};

fn build_proto_packet(proto_payload: &[u8]) -> Vec<u8> {
    let mut buf = vec![0u8; 68 + proto_payload.len()];
    let eth = EtherHdr {
        dst_mac: [0u8; 6],
        src_mac: [0u8; 6],
        ether_type: 0x0800,
    };
    buf[0..14].copy_from_slice(&eth.as_bytes());

    let mut ip = IpHdr {
        version_ihl: 0x45,
        tos: 0,
        total_len: (54 + proto_payload.len()) as u16,
        id: 1,
        flags_fragment: 0,
        ttl: 64,
        proto: 6,
        hdr_checksum: 0,
        src_ip: [192, 168, 1, 1],
        dst_ip: [192, 168, 1, 2],
    };
    let csum = calculate_checksum(&ip.as_bytes());
    ip.hdr_checksum = csum;
    buf[14..34].copy_from_slice(&ip.as_bytes());

    let tcp = TcpHdr {
        src_port: 12345,
        dst_port: 50051,
        seq_num: 100,
        ack_num: 200,
        data_offset_reserved_flags: 5 << 12,
        window_size: 1024,
        checksum: 0,
        urgent_pointer: 0,
    };
    buf[34..54].copy_from_slice(&tcp.as_bytes());

    let http2_len = (proto_payload.len() + 5) as u32;
    let http2 = Http2Hdr {
        length: [
            ((http2_len >> 16) & 0xff) as u8,
            ((http2_len >> 8) & 0xff) as u8,
            (http2_len & 0xff) as u8,
        ],
        frame_type: 0x0,
        flags: 0,
        stream_id: 1,
    };
    buf[54..63].copy_from_slice(&http2.as_bytes());

    let grpc = GrpcHdr {
        compression_flag: 0,
        message_len: proto_payload.len() as u32,
    };
    buf[63..68].copy_from_slice(&grpc.as_bytes());
    buf[68..].copy_from_slice(proto_payload);

    buf
}

#[test]
fn test_valid_packed_shape() {
    let proto = vec![0x0a, 5, 1, 3, 0xe0, 0x01, 0xe0, 0x01];
    let buf = build_proto_packet(&proto);
    let config = ValidationConfig::default();
    let (shape, len) = validate_grpc_protobuf_packet(&buf, &config).unwrap();

    assert_eq!(len, 4);
    assert_eq!(&shape[0..4], &[1, 3, 224, 224]);
}

#[test]
fn test_valid_unpacked_shape() {
    let proto = vec![0x08, 1, 0x08, 3, 0x08, 10];
    let buf = build_proto_packet(&proto);
    let config = ValidationConfig::default();
    let (shape, len) = validate_grpc_protobuf_packet(&buf, &config).unwrap();

    assert_eq!(len, 3);
    assert_eq!(&shape[0..3], &[1, 3, 10]);
}

#[test]
fn test_varint_overflow() {
    let proto = vec![0x08, 0xff, 0xff, 0xff, 0xff, 0xff, 0xff, 0xff, 0xff, 0xff, 0xff, 0x01];
    let buf = build_proto_packet(&proto);
    let config = ValidationConfig::default();
    let err = validate_grpc_protobuf_packet(&buf, &config).unwrap_err();
    assert_eq!(err, ValidationError::Proto(ProtoError::InvalidVarint));
}

#[test]
fn test_varint_bytes_limit() {
    let proto = vec![0x08, 0xff, 0xff, 0xff, 0xff, 0xff, 0x01];
    let buf = build_proto_packet(&proto);
    let mut config = ValidationConfig::default();
    config.max_varint_bytes = 4;
    let err = validate_grpc_protobuf_packet(&buf, &config).unwrap_err();
    assert_eq!(err, ValidationError::Proto(ProtoError::InvalidVarintBytes));
}

#[test]
fn test_shape_dimension_limit() {
    let proto = vec![0x0a, 6, 1, 2, 3, 4, 5, 6];
    let buf = build_proto_packet(&proto);
    let mut config = ValidationConfig::default();
    config.max_dimensions = 4;
    let err = validate_grpc_protobuf_packet(&buf, &config).unwrap_err();
    assert_eq!(err, ValidationError::Proto(ProtoError::ShapeDimensionLimit));
}

#[test]
fn test_shape_value_invalid() {
    let proto = vec![0x0a, 2, 1, 0];
    let buf = build_proto_packet(&proto);
    let config = ValidationConfig::default();
    let err = validate_grpc_protobuf_packet(&buf, &config).unwrap_err();
    assert_eq!(err, ValidationError::Proto(ProtoError::ShapeValueInvalid));
}

#[test]
fn test_tensor_size_limit() {
    let proto = vec![0x0a, 4, 100, 100, 100, 10];
    let buf = build_proto_packet(&proto);
    let mut config = ValidationConfig::default();
    config.max_tensor_elements = 500000;
    let err = validate_grpc_protobuf_packet(&buf, &config).unwrap_err();
    assert_eq!(err, ValidationError::Proto(ProtoError::TensorSizeLimit));
}

#[test]
fn test_tensor_size_overflow() {
    let proto = vec![0x0a, 17, 0xff, 0xff, 0xff, 0xff, 0xff, 0xff, 0xff, 0x01, 0xff, 0xff, 0xff, 0xff, 0xff, 0xff, 0xff, 0x01, 100];
    let buf = build_proto_packet(&proto);
    let config = ValidationConfig::default();
    let err = validate_grpc_protobuf_packet(&buf, &config).unwrap_err();
    assert_eq!(err, ValidationError::Proto(ProtoError::TensorSizeLimit));
}

#[test]
fn test_recursion_limit() {
    let proto = vec![
        0x12, 12,
        0x12, 10,
        0x12, 8,
        0x12, 6,
        0x0a, 4, 1, 2, 3, 4
    ];
    let buf = build_proto_packet(&proto);
    let mut config = ValidationConfig::default();
    config.max_recursion_depth = 2;
    let err = validate_grpc_protobuf_packet(&buf, &config).unwrap_err();
    assert_eq!(err, ValidationError::Proto(ProtoError::RecursionLimit));
}

#[test]
fn default_limits() {
    let config = ValidationConfig::default();
    assert_eq!(config.target_port, 50051);
    assert_eq!(config.shape_field_number, 1);
    assert_eq!(config.max_dimensions, 4);
    assert_eq!(config.max_tensor_elements, 1_000_000);
    assert_eq!(config.max_recursion_depth, 3);
    assert_eq!(config.max_varint_bytes, 9);
    assert_eq!(config.clone().max_tensor_elements, 1_000_000);
}

#[test]
fn varints_of_one_and_more_bytes() {
    let mut offset = 0;
    assert_eq!(read_varint(&[0x7f], &mut offset, 9), Ok(127));
    assert_eq!(offset, 1);
    let mut offset = 1;
    assert_eq!(read_varint(&[0xff, 0xe0, 0x01], &mut offset, 9), Ok(224));
    assert_eq!(offset, 3);
    // Nine bytes are the most.
    let nine = [0xff, 0xff, 0xff, 0xff, 0xff, 0xff, 0xff, 0xff, 0x7f];
    let mut offset = 0;
    assert_eq!(read_varint(&nine, &mut offset, 9), Ok((1u64 << 63) - 1));
    assert_eq!(offset, 9);
    let mut offset = 0;
    assert_eq!(
        read_varint(&nine, &mut offset, 8),
        Err(ProtoError::InvalidVarintBytes)
    );
    let ten = [0xff, 0xff, 0xff, 0xff, 0xff, 0xff, 0xff, 0xff, 0xff, 0x01];
    let mut offset = 0;
    assert_eq!(
        read_varint(&ten, &mut offset, 10),
        Err(ProtoError::InvalidVarint)
    );
    let mut offset = 0;
    assert_eq!(
        read_varint(&[0x80, 0x80], &mut offset, 9),
        Err(ProtoError::BufferUnderflow)
    );
    let mut offset = 0;
    assert_eq!(
        read_varint(&[], &mut offset, 9),
        Err(ProtoError::BufferUnderflow)
    );
}

#[test]
fn fields_are_skipped_by_wire_type() {
    let buf = [0x96, 0x01, 1, 2, 3, 4, 5, 6, 7, 8];
    let mut offset = 0;
    assert_eq!(skip_field(&buf, &mut offset, 0, 9), Ok(()));
    assert_eq!(offset, 2);
    let mut offset = 2;
    assert_eq!(skip_field(&buf, &mut offset, 1, 9), Ok(()));
    assert_eq!(offset, 10);
    let mut offset = 2;
    assert_eq!(skip_field(&buf, &mut offset, 5, 9), Ok(()));
    assert_eq!(offset, 6);
    let mut offset = 3;
    assert_eq!(skip_field(&buf, &mut offset, 2, 9), Ok(()));
    assert_eq!(offset, 6);
    let mut offset = 3;
    assert_eq!(
        skip_field(&buf, &mut offset, 1, 9),
        Err(ProtoError::BufferUnderflow)
    );
    let mut offset = 0;
    assert_eq!(
        skip_field(&buf, &mut offset, 3, 9),
        Err(ProtoError::InvalidWireType)
    );
}

#[test]
fn products_of_dimensions() {
    assert_eq!(element_product(&[]), Some(1));
    assert_eq!(element_product(&[1, 3, 224, 224]), Some(150528));
    assert_eq!(element_product(&[i64::MAX, 2]), Some(u64::MAX - 1));
    assert_eq!(element_product(&[i64::MAX, 3]), None);
}

#[test]
fn every_payload_error() {
    let config = ValidationConfig::default();
    let error = |payload: &[u8]| {
        validate_grpc_protobuf_packet(&build_proto_packet(payload), &config).unwrap_err()
    };
    assert_eq!(
        error(&[0x0a, 100, 1]),
        ValidationError::Proto(ProtoError::BufferUnderflow)
    );
    assert_eq!(
        error(&[0x0d, 1, 2, 3, 4]),
        ValidationError::Proto(ProtoError::InvalidWireType)
    );
    assert_eq!(
        error(&[0x0a, 5, 1, 1, 1, 1, 1]),
        ValidationError::Proto(ProtoError::ShapeDimensionLimit)
    );
    let mut many = vec![0x0a, 17];
    many.extend_from_slice(&[1; 17]);
    let mut wide = ValidationConfig::default();
    wide.max_dimensions = 100;
    assert_eq!(
        validate_grpc_protobuf_packet(&build_proto_packet(&many), &wide).unwrap_err(),
        ValidationError::Proto(ProtoError::ShapeDimensionLimit)
    );
    let mut other_port = ValidationConfig::default();
    other_port.target_port = 1;
    assert_eq!(
        validate_grpc_protobuf_packet(&build_proto_packet(&[]), &other_port).unwrap_err(),
        ValidationError::Parse(ParseError::WrongPort)
    );
}

#[test]
fn empty_payload_is_valid_and_has_no_shape() {
    let config = ValidationConfig::default();
    let (shape, len) = validate_grpc_protobuf_packet(&build_proto_packet(&[]), &config).unwrap();
    assert_eq!(len, 0);
    assert_eq!(shape, [0i64; 16]);
}

#[test]
fn nesting_is_allowed_up_to_the_limit() {
    let config = ValidationConfig::default();
    // Three levels down.
    let deep = [0x12, 7, 0x12, 5, 0x12, 3, 0x0a, 1, 1];
    let (shape, len) = validate_grpc_protobuf_packet(&build_proto_packet(&deep), &config).unwrap();
    assert_eq!((shape[0], len), (1, 1));
    let deeper = [0x12, 9, 0x12, 7, 0x12, 5, 0x12, 3, 0x0a, 1, 1];
    assert_eq!(
        validate_grpc_protobuf_packet(&build_proto_packet(&deeper), &config).unwrap_err(),
        ValidationError::Proto(ProtoError::RecursionLimit)
    );
}
