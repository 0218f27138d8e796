//! Parsing of packet headers.
use custos::grpc::{
    calculate_checksum, parse_grpc_packet, EtherHdr, GrpcHdr, Http2Hdr, IpHdr, ParseError, TcpHdr,
    Xorshift,
};

fn build_valid_packet() -> (Vec<u8>, u16) {
    let mut buf = vec![0u8; 100];

    let eth = EtherHdr {
        dst_mac: [0u8; 6],
        src_mac: [0u8; 6],
        ether_type: 0x0800,
    };
    buf[0..14].copy_from_slice(&eth.as_bytes());

    let mut ip = IpHdr {
        version_ihl: 0x45,
        tos: 0,
        total_len: 86,
        id: 1,
        flags_fragment: 0,
        ttl: 64,
        proto: 6,
        hdr_checksum: 0,
        src_ip: [192, 168, 1, 1],
        dst_ip: [192, 168, 1, 2],
    };
    let csum = calculate_checksum(&ip.as_bytes());
    ip.hdr_checksum = csum;
    buf[14..34].copy_from_slice(&ip.as_bytes());

    let tcp = TcpHdr {
        src_port: 12345,
        dst_port: 50051,
        seq_num: 100,
        ack_num: 200,
        data_offset_reserved_flags: 5 << 12,
        window_size: 1024,
        checksum: 0,
        urgent_pointer: 0,
    };
    buf[34..54].copy_from_slice(&tcp.as_bytes());

    let http2 = Http2Hdr {
        length: [0, 0, 15],
        frame_type: 0x0,
        flags: 0,
        stream_id: 1,
    };
    buf[54..63].copy_from_slice(&http2.as_bytes());

    let grpc = GrpcHdr {
        compression_flag: 0,
        message_len: 10,
    };
    buf[63..68].copy_from_slice(&grpc.as_bytes());

    buf[68..78].copy_from_slice(b"MESSAGE123");

    (buf, 50051)
}

#[test]
fn test_parse_valid_grpc() {
    let (buf, port) = build_valid_packet();
    let parsed = parse_grpc_packet(&buf, port).unwrap();
    assert_eq!(parsed.eth.ether_type, 0x0800);
    assert_eq!(parsed.ip.proto, 6);
    assert_eq!(parsed.tcp.dst_port, 50051);
    assert_eq!(parsed.http2.frame_type, 0);
    assert_eq!(parsed.grpc.message_len, 10);
}

#[test]
fn test_parse_non_ipv4() {
    let (mut buf, _) = build_valid_packet();
    buf[12..14].copy_from_slice(&[0x08, 0x06]);
    let err = parse_grpc_packet(&buf, 50051).unwrap_err();
    assert_eq!(err, ParseError::NonIPv4);
}

#[test]
fn test_parse_non_tcp() {
    let (mut buf, _) = build_valid_packet();
    buf[23] = 17;
    let mut ip_hdr = [0u8; 20];
    ip_hdr.copy_from_slice(&buf[14..34]);
    ip_hdr[9] = 17;
    ip_hdr[10] = 0;
    ip_hdr[11] = 0;
    let csum = calculate_checksum(&ip_hdr);
    ip_hdr[10..12].copy_from_slice(&csum.to_be_bytes());
    buf[14..34].copy_from_slice(&ip_hdr);

    let err = parse_grpc_packet(&buf, 50051).unwrap_err();
    assert_eq!(err, ParseError::NonTCP);
}

#[test]
fn test_parse_bad_ip_checksum() {
    let (mut buf, _) = build_valid_packet();
    buf[24] ^= 0xff;
    let err = parse_grpc_packet(&buf, 50051).unwrap_err();
    assert_eq!(err, ParseError::BadIpChecksum);
}

#[test]
fn test_parse_wrong_port() {
    let (buf, _) = build_valid_packet();
    let err = parse_grpc_packet(&buf, 8080).unwrap_err();
    assert_eq!(err, ParseError::WrongPort);
}

#[test]
fn test_parse_non_http2_data() {
    let (mut buf, _) = build_valid_packet();
    buf[57] = 0x1;
    let err = parse_grpc_packet(&buf, 50051).unwrap_err();
    assert_eq!(err, ParseError::NonHttp2Data);
}

#[test]
fn test_parse_payload_overflow() {
    let (mut buf, _) = build_valid_packet();
    buf[64..68].copy_from_slice(&100u32.to_be_bytes());
    let err = parse_grpc_packet(&buf, 50051).unwrap_err();
    assert_eq!(err, ParseError::PayloadOverflow);
}

#[test]
fn headers_stand_on_the_wire_in_network_order() {
    let eth = EtherHdr {
        dst_mac: [1, 2, 3, 4, 5, 6],
        src_mac: [7, 8, 9, 10, 11, 12],
        ether_type: 0x0800,
    };
    assert_eq!(
        eth.as_bytes(),
        vec![1, 2, 3, 4, 5, 6, 7, 8, 9, 10, 11, 12, 0x08, 0x00]
    );
    let back = EtherHdr::read_from(&eth.as_bytes()).unwrap();
    assert_eq!(back.dst_mac, eth.dst_mac);
    assert_eq!(back.src_mac, eth.src_mac);
    assert_eq!(back.ether_type, 0x0800);
    assert!(EtherHdr::read_from(&[0u8; 13]).is_none());
    assert!(EtherHdr::read_from(&[0u8; 15]).is_none());

    let tcp = TcpHdr {
        src_port: 0x1234,
        dst_port: 50051,
        seq_num: 0x0102_0304,
        ack_num: 0xa0b0_c0d0,
        data_offset_reserved_flags: 0x5018,
        window_size: 0x4000,
        checksum: 0xbeef,
        urgent_pointer: 1,
    };
    assert_eq!(
        tcp.as_bytes(),
        vec![
            0x12, 0x34, 0xc3, 0x83, 1, 2, 3, 4, 0xa0, 0xb0, 0xc0, 0xd0, 0x50, 0x18, 0x40, 0x00,
            0xbe, 0xef, 0x00, 0x01
        ]
    );
    let back = TcpHdr::read_from(&tcp.as_bytes()).unwrap();
    assert_eq!(back.dst_port, 50051);
    assert_eq!(back.seq_num, 0x0102_0304);
    assert_eq!(back.ack_num, 0xa0b0_c0d0);
    assert_eq!(back.checksum, 0xbeef);

    let http2 = Http2Hdr {
        length: [0x01, 0x02, 0x03],
        frame_type: 4,
        flags: 5,
        stream_id: 0x0607_0809,
    };
    assert_eq!(http2.as_bytes(), vec![1, 2, 3, 4, 5, 6, 7, 8, 9]);
    assert_eq!(http2.payload_len(), 0x010203);
    assert_eq!(
        Http2Hdr::read_from(&http2.as_bytes()).unwrap().stream_id,
        0x0607_0809
    );

    let grpc = GrpcHdr {
        compression_flag: 1,
        message_len: 0x0203_0405,
    };
    assert_eq!(grpc.as_bytes(), vec![1, 2, 3, 4, 5]);
    assert_eq!(
        GrpcHdr::read_from(&grpc.as_bytes()).unwrap().message_len,
        0x0203_0405
    );

    let (buf, _) = build_valid_packet();
    let ip = IpHdr::read_from(&buf[14..34]).unwrap();
    assert_eq!(ip.total_len, 86);
    assert_eq!(ip.as_bytes(), buf[14..34].to_vec());
}

#[test]
fn checksum_of_known_headers() {
    assert_eq!(calculate_checksum(&[]), 0xffff);
    assert_eq!(calculate_checksum(&[0xff]), 0x00ff);
    assert_eq!(calculate_checksum(&[0xff, 0xff]), 0);
    // The header of a datagram from 192.168.0.1 to 192.168.0.199.
    let header = [
        0x45, 0x00, 0x00, 0x73, 0x00, 0x00, 0x40, 0x00, 0x40, 0x11, 0x00, 0x00, 0xc0, 0xa8, 0x00,
        0x01, 0xc0, 0xa8, 0x00, 0xc7,
    ];
    assert_eq!(calculate_checksum(&header), 0xb861);
    let mut with_sum = header;
    with_sum[10] = 0xb8;
    with_sum[11] = 0x61;
    assert_eq!(calculate_checksum(&with_sum), 0);
}

#[test]
fn a_changed_word_breaks_the_checksum() {
    let (buf, _) = build_valid_packet();
    for at in [12usize, 13, 14, 15, 16, 17, 18, 19] {
        let mut header = buf[14..34].to_vec();
        assert_eq!(calculate_checksum(&header), 0);
        header[at] ^= 0x21;
        assert_ne!(calculate_checksum(&header), 0);
    }
}

#[test]
fn every_parse_error() {
    let (buf, port) = build_valid_packet();
    assert_eq!(
        parse_grpc_packet(&buf[..33], port).unwrap_err(),
        ParseError::BufferTooSmall
    );
    assert_eq!(
        parse_grpc_packet(&[], port).unwrap_err(),
        ParseError::BufferTooSmall
    );

    let mut short_ip = buf.clone();
    short_ip[14] = 0x44;
    assert_eq!(
        parse_grpc_packet(&short_ip, port).unwrap_err(),
        ParseError::BadIpHdrLen
    );

    let mut short_tcp = buf.clone();
    short_tcp[46] = 0x40;
    assert_eq!(
        parse_grpc_packet(&short_tcp, port).unwrap_err(),
        ParseError::BadTcpHdrLen
    );

    let mut long_frame = buf.clone();
    long_frame[54..57].copy_from_slice(&[0xff, 0xff, 0xff]);
    assert_eq!(
        parse_grpc_packet(&long_frame, port).unwrap_err(),
        ParseError::PayloadOverflow
    );

    let mut short_frame = buf.clone();
    short_frame[54..57].copy_from_slice(&[0, 0, 4]);
    assert_eq!(
        parse_grpc_packet(&short_frame, port).unwrap_err(),
        ParseError::BadGrpcHdr
    );
}

#[test]
fn generator_follows_its_rule_and_never_sticks() {
    let mut rng = Xorshift::new(1);
    assert_eq!(rng.next_u32(), 270369);
    assert_eq!(rng.next(), 67634689);
    assert_eq!(rng.next_u32(), 2647435461);
    let mut from_zero = Xorshift::new(0);
    assert_eq!(from_zero.next(), 270369);
    let mut rng = Xorshift::new(1);
    assert_eq!(rng.next_fraction(), 270369);
    assert_eq!(rng.next_fraction(), 67634689 & 0xffffff);
    let mut rng = Xorshift::new(12345);
    for _ in 0..10_000 {
        assert_ne!(rng.next_u32(), 0);
    }
}

#[test]
fn different_seeds_give_different_numbers() {
    let mut seen = std::collections::HashSet::new();
    for seed in 1..2000 {
        assert!(seen.insert(Xorshift::new(seed).next_u32()));
    }
}
