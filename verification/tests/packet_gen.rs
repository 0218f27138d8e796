//! Packets made for tests of other software.
use custos::bench::packet_of;
use custos::grpc::{calculate_checksum, parse_grpc_packet, ParseError};
use custos::packet_gen::{generate_packet, PacketGenParams, TrafficProfile};
use custos::protobuf::{
    validate_grpc_protobuf_packet, ProtoError, ValidationConfig, ValidationError,
};

fn made(profile: TrafficProfile) -> Vec<u8> {
    let mut params = PacketGenParams::default();
    params.profile = profile;
    generate_packet(&params)
}

fn outcome(profile: TrafficProfile) -> Result<usize, ValidationError> {
    validate_grpc_protobuf_packet(&made(profile), &ValidationConfig::default()).map(|r| r.1)
}

#[test]
fn a_valid_packet_byte_by_byte() {
    let packet = made(TrafficProfile::ValidPacked);
    assert_eq!(packet.len(), 76);
    assert_eq!(&packet[0..6], &[0xff; 6]);
    assert_eq!(&packet[6..12], &[2, 0, 0, 0, 0, 1]);
    assert_eq!(&packet[12..16], &[0x08, 0x00, 0x45, 0x00]);
    assert_eq!(&packet[26..34], &[192, 168, 1, 2, 192, 168, 1, 1]);
    assert_eq!(&packet[34..38], &[0x30, 0x39, 0xc3, 0x83]);
    assert_eq!(&packet[54..58], &[0, 0, 13, 0]);
    assert_eq!(&packet[63..68], &[0, 0, 0, 0, 8]);
    assert_eq!(&packet[68..], &[0x0a, 5, 1, 3, 0xe0, 0x01, 0xe0, 0x01]);
    assert_eq!(packet, packet_of(TrafficProfile::ValidPacked));
}

#[test]
fn checksums_of_a_packet_pass() {
    for profile in [
        TrafficProfile::ValidPacked,
        TrafficProfile::ValidUnpacked,
        TrafficProfile::InvalidShapeValue,
        TrafficProfile::ShapeDimLimitExceeded,
    ] {
        let packet = made(profile);
        assert_eq!(calculate_checksum(&packet[14..34]), 0);
        // The length that is covered counts the padding.
        let mut padded = packet[34..].to_vec();
        if padded.len() % 2 != 0 {
            padded.push(0);
        }
        let mut segment = packet[26..34].to_vec();
        segment.extend_from_slice(&[0, 6]);
        segment.extend_from_slice(&(padded.len() as u16).to_be_bytes());
        segment.extend_from_slice(&padded);
        assert_eq!(calculate_checksum(&segment), 0);
    }
}

#[test]
fn each_kind_shows_its_flaw() {
    assert_eq!(outcome(TrafficProfile::ValidPacked), Ok(4));
    assert_eq!(outcome(TrafficProfile::ValidUnpacked), Ok(3));
    assert_eq!(outcome(TrafficProfile::BadTcpChecksum), Ok(4));
    for (profile, error) in [
        (TrafficProfile::InvalidShapeValue, ProtoError::ShapeValueInvalid),
        (TrafficProfile::ShapeDimLimitExceeded, ProtoError::ShapeDimensionLimit),
        (TrafficProfile::RecursionLimitExceeded, ProtoError::RecursionLimit),
        (TrafficProfile::InvalidVarint, ProtoError::InvalidVarint),
        (TrafficProfile::BufferUnderflow, ProtoError::BufferUnderflow),
        (TrafficProfile::InvalidWireType, ProtoError::InvalidWireType),
    ] {
        assert_eq!(outcome(profile), Err(ValidationError::Proto(error)));
    }
    for (profile, error) in [
        (TrafficProfile::NonIpv4, ParseError::NonIPv4),
        (TrafficProfile::BadIpHdrLen, ParseError::BadIpHdrLen),
        (TrafficProfile::WrongPort, ParseError::WrongPort),
        (TrafficProfile::BadHttp2, ParseError::NonHttp2Data),
        (TrafficProfile::BadGrpc, ParseError::PayloadOverflow),
    ] {
        assert_eq!(outcome(profile), Err(ValidationError::Parse(error)));
    }
}

#[test]
fn addresses_and_ports_can_be_chosen() {
    let params = PacketGenParams {
        dst_mac: [1; 6],
        src_mac: [2; 6],
        src_ip: [10, 0, 0, 1],
        dst_ip: [10, 0, 0, 2],
        src_port: 1,
        dst_port: 8001,
        profile: TrafficProfile::ValidPacked,
    };
    let parsed = parse_grpc_packet(&generate_packet(&params), 8001).unwrap();
    assert_eq!(parsed.eth.dst_mac, [1; 6]);
    assert_eq!(parsed.ip.src_ip, [10, 0, 0, 1]);
    assert_eq!(parsed.ip.dst_ip, [10, 0, 0, 2]);
    assert_eq!(parsed.tcp.src_port, 1);
}

#[test]
fn a_wrong_header_length_is_refused_on_any_port() {
    let packet = made(TrafficProfile::BadIpHdrLen);
    assert_eq!(packet.len(), 76);
    assert_eq!(&packet[14..18], &[0x44, 0, 0, 10]);
    assert_eq!(calculate_checksum(&packet[14..34]), 0);
    for port in [0, 50051, 65535] {
        assert_eq!(
            parse_grpc_packet(&packet, port).unwrap_err(),
            ParseError::BadIpHdrLen
        );
    }
}
