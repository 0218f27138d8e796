//! Packets of known kinds, valid and broken, for exercising the inspection.
use crate::endian;
use crate::grpc;
use crate::grpc::{
    calculate_checksum, EtherHdr, GrpcHdr, Http2Hdr, IpHdr, ParseError, TcpHdr,
};
use crate::protobuf;
use crate::protobuf::{ProtoError, ValidationConfig, ValidationError};
use vstd::prelude::*;

verus! {

/// A kind of packet.
#[derive(Clone, Copy, Debug, PartialEq, Eq, Structural)]
pub enum TrafficProfile {
    /// A valid shape, packed.
    ValidPacked,
    /// A valid shape, one field for each dimension.
    ValidUnpacked,
    /// A dimension that is not positive.
    InvalidShapeValue,
    /// More dimensions than can be collected.
    ShapeDimLimitExceeded,
    /// Messages nested too deep.
    RecursionLimitExceeded,
    /// A varint that does not end.
    InvalidVarint,
    /// A field longer than the message.
    BufferUnderflow,
    /// A wire type that a shape cannot have.
    InvalidWireType,
    /// A wrong TCP checksum.
    BadTcpChecksum,
    /// A wrong length of the IPv4 header.
    BadIpHdrLen,
    /// A protocol other than IPv4.
    NonIpv4,
    /// A destination port other than the one given.
    WrongPort,
    /// An HTTP/2 frame that is no DATA frame.
    BadHttp2,
    /// A gRPC message longer than its frame.
    BadGrpc,
}

/// What a packet is made from.
#[derive(Clone, Copy, Debug)]
pub struct PacketGenParams {
    pub dst_mac: [u8; 6],
    pub src_mac: [u8; 6],
    pub src_ip: [u8; 4],
    pub dst_ip: [u8; 4],
    pub src_port: u16,
    pub dst_port: u16,
    pub profile: TrafficProfile,
}

impl Default for PacketGenParams {
    fn default() -> (params: Self)
        ensures
            params.dst_mac@ == seq![0xffu8, 0xff, 0xff, 0xff, 0xff, 0xff],
            params.src_mac@ == seq![0x02u8, 0, 0, 0, 0, 0x01],
            params.src_ip@ == seq![192u8, 168, 1, 2],
            params.dst_ip@ == seq![192u8, 168, 1, 1],
            params.src_port == 12345,
            params.dst_port == 50051,
            params.profile == TrafficProfile::ValidPacked,
    {
        let params = PacketGenParams {
            dst_mac: [0xff, 0xff, 0xff, 0xff, 0xff, 0xff],
            src_mac: [0x02, 0x00, 0x00, 0x00, 0x00, 0x01],
            src_ip: [192, 168, 1, 2],
            dst_ip: [192, 168, 1, 1],
            src_port: 12345,
            dst_port: 50051,
            profile: TrafficProfile::ValidPacked,
        };
        proof {
            assert(params.dst_mac@ =~= seq![0xffu8, 0xff, 0xff, 0xff, 0xff, 0xff]);
            assert(params.src_mac@ =~= seq![0x02u8, 0, 0, 0, 0, 0x01]);
            assert(params.src_ip@ =~= seq![192u8, 168, 1, 2]);
            assert(params.dst_ip@ =~= seq![192u8, 168, 1, 1]);
        }
        params
    }
}

/// The Protobuf payload of a packet.
pub open spec fn payload(profile: TrafficProfile) -> Seq<u8> {
    match profile {
        TrafficProfile::ValidUnpacked => seq![0x08, 1, 0x08, 3, 0x08, 10],
        TrafficProfile::InvalidShapeValue => seq![0x0a, 3, 1, 0, 5],
        TrafficProfile::ShapeDimLimitExceeded => seq![0x0a, 20] + Seq::new(20, |i: int| 1u8),
        TrafficProfile::RecursionLimitExceeded => seq![
            0x12,
            9,
            0x12,
            7,
            0x12,
            5,
            0x12,
            3,
            0x0a,
            1,
            1,
        ],
        TrafficProfile::InvalidVarint => seq![
            0x08,
            0xff,
            0xff,
            0xff,
            0xff,
            0xff,
            0xff,
            0xff,
            0xff,
            0xff,
            0xff,
            0x01,
        ],
        TrafficProfile::BufferUnderflow => seq![0x0a, 100, 1, 2, 3],
        TrafficProfile::InvalidWireType => seq![0x0d, 1, 2, 3, 4],
        _ => seq![0x0a, 5, 1, 3, 0xe0, 0x01, 0xe0, 0x01],
    }
}

/// The Ethernet header of a packet.
pub open spec fn eth_header(p: PacketGenParams) -> EtherHdr {
    EtherHdr {
        dst_mac: p.dst_mac,
        src_mac: p.src_mac,
        ether_type: if p.profile is NonIpv4 {
            0x0806
        } else {
            0x0800
        },
    }
}

/// The IPv4 header of a packet, with a given checksum.
pub open spec fn ip_header(p: PacketGenParams, hdr_checksum: u16) -> IpHdr {
    IpHdr {
        version_ihl: if p.profile is BadIpHdrLen {
            0x44
        } else {
            0x45
        },
        tos: 0,
        total_len: if p.profile is BadIpHdrLen {
            10
        } else {
            (54 + payload(p.profile).len()) as u16
        },
        id: 42,
        flags_fragment: 0,
        ttl: 64,
        proto: 6,
        hdr_checksum,
        src_ip: p.src_ip,
        dst_ip: p.dst_ip,
    }
}

/// The TCP header of a packet, with a given checksum.
pub open spec fn tcp_header(p: PacketGenParams, checksum: u16) -> TcpHdr {
    TcpHdr {
        src_port: p.src_port,
        dst_port: if p.profile is WrongPort {
            9999
        } else {
            p.dst_port
        },
        seq_num: 1000,
        ack_num: 2000,
        data_offset_reserved_flags: 0x5000,
        window_size: 8192,
        checksum,
        urgent_pointer: 0,
    }
}

/// What follows the TCP header: the HTTP/2 frame header, the gRPC message header
/// and the payload.
pub open spec fn tcp_payload(p: PacketGenParams) -> Seq<u8> {
    let len = payload(p.profile).len();
    let frame_type = if p.profile is BadHttp2 {
        0xffu8
    } else {
        0u8
    };
    let message_len = if p.profile is BadGrpc {
        len + 1000
    } else {
        len
    };
    seq![0u8, 0u8, (len + 5) as u8, frame_type, 0u8] + endian::u32_bytes(1) + seq![0u8]
        + endian::u32_bytes(message_len as u32) + payload(p.profile)
}

/// The TCP segment with a checksum of zero, brought to an even length.
pub open spec fn padded_segment(p: PacketGenParams) -> Seq<u8> {
    let segment = tcp_header(p, 0).wire() + tcp_payload(p);
    if segment.len() % 2 == 0 {
        segment
    } else {
        segment.push(0)
    }
}

/// What the TCP checksum is taken over: the addresses, the protocol, the length
/// with the padding, and the segment.
pub open spec fn pseudo_segment(p: PacketGenParams) -> Seq<u8> {
    p.src_ip@ + p.dst_ip@ + seq![0u8, 6u8] + endian::u16_bytes(padded_segment(p).len() as u16)
        + padded_segment(p)
}

/// The checksum in the IPv4 header.
pub open spec fn ip_checksum(p: PacketGenParams) -> u16 {
    grpc::checksum(ip_header(p, 0).wire()) as u16
}

/// The checksum in the TCP header.
pub open spec fn tcp_checksum(p: PacketGenParams) -> u16 {
    if p.profile is BadTcpChecksum {
        0xdead
    } else {
        grpc::checksum(pseudo_segment(p)) as u16
    }
}

/// The packet.
pub open spec fn packet(p: PacketGenParams) -> Seq<u8> {
    eth_header(p).wire() + ip_header(p, ip_checksum(p)).wire() + tcp_header(
        p,
        tcp_checksum(p),
    ).wire() + tcp_payload(p)
}

/// The Protobuf payload of a packet.
fn make_payload(profile: TrafficProfile) -> (bytes: Vec<u8>)
    ensures
        bytes@ == payload(profile),
        bytes@.len() <= 22,
{
    let bytes: Vec<u8> = match profile {
        TrafficProfile::ValidUnpacked => vec![0x08, 1, 0x08, 3, 0x08, 10],
        TrafficProfile::InvalidShapeValue => vec![0x0a, 3, 1, 0, 5],
        TrafficProfile::ShapeDimLimitExceeded => vec![
            0x0a, 20, 1, 1, 1, 1, 1, 1, 1, 1, 1, 1, 1, 1, 1, 1, 1, 1, 1, 1, 1, 1,
        ],
        TrafficProfile::RecursionLimitExceeded => vec![
            0x12, 9, 0x12, 7, 0x12, 5, 0x12, 3, 0x0a, 1, 1,
        ],
        TrafficProfile::InvalidVarint => vec![
            0x08, 0xff, 0xff, 0xff, 0xff, 0xff, 0xff, 0xff, 0xff, 0xff, 0xff, 0x01,
        ],
        TrafficProfile::BufferUnderflow => vec![0x0a, 100, 1, 2, 3],
        TrafficProfile::InvalidWireType => vec![0x0d, 1, 2, 3, 4],
        _ => vec![0x0a, 5, 1, 3, 0xe0, 0x01, 0xe0, 0x01],
    };
    assert(bytes@ =~= payload(profile));
    bytes
}

/// Appends bytes to a packet.
fn append_bytes(buf: &mut Vec<u8>, bytes: &[u8])
    ensures
        final(buf)@ == old(buf)@ + bytes@,
{
    let mut i: usize = 0;
    assert(buf@ =~= old(buf)@ + bytes@.take(0));
    while i < bytes.len()
        invariant
            i <= bytes@.len(),
            buf@ == old(buf)@ + bytes@.take(i as int),
        decreases bytes@.len() - i,
    {
        buf.push(bytes[i]);
        i = i + 1;
        assert(buf@ =~= old(buf)@ + bytes@.take(i as int));
    }
    assert(bytes@.take(i as int) =~= bytes@);
}

/// What follows the TCP header.
fn make_tcp_payload(p: &PacketGenParams) -> (bytes: Vec<u8>)
    ensures
        bytes@ == tcp_payload(*p),
        bytes@.len() <= 36,
        bytes@.len() == 14 + payload(p.profile).len(),
{
    let proto: Vec<u8> = make_payload(p.profile);
    let len: usize = proto.len();
    let http2 = Http2Hdr {
        length: [0, 0, (len + 5) as u8],
        frame_type: match p.profile {
            TrafficProfile::BadHttp2 => 0xff,
            _ => 0,
        },
        flags: 0,
        stream_id: 1,
    };
    let grpc_hdr = GrpcHdr {
        compression_flag: 0,
        message_len: match p.profile {
            TrafficProfile::BadGrpc => len as u32 + 1000,
            _ => len as u32,
        },
    };
    let mut bytes: Vec<u8> = http2.as_bytes();
    append_bytes(&mut bytes, grpc_hdr.as_bytes().as_slice());
    append_bytes(&mut bytes, proto.as_slice());
    assert(bytes@ =~= tcp_payload(*p));
    bytes
}

/// Makes the packet of the kind that is asked for.
pub fn generate_packet(params: &PacketGenParams) -> (bytes: Vec<u8>)
    ensures
        bytes@ == packet(*params),
        bytes@.len() == 68 + payload(params.profile).len(),
{
    let p: PacketGenParams = *params;
    let after_tcp: Vec<u8> = make_tcp_payload(&p);
    let eth = EtherHdr {
        dst_mac: p.dst_mac,
        src_mac: p.src_mac,
        ether_type: match p.profile {
            TrafficProfile::NonIpv4 => 0x0806,
            _ => 0x0800,
        },
    };
    let mut ip = IpHdr {
        version_ihl: match p.profile {
            TrafficProfile::BadIpHdrLen => 0x44,
            _ => 0x45,
        },
        tos: 0,
        total_len: match p.profile {
            TrafficProfile::BadIpHdrLen => 10,
            _ => (40 + after_tcp.len()) as u16,
        },
        id: 42,
        flags_fragment: 0,
        ttl: 64,
        proto: 6,
        hdr_checksum: 0,
        src_ip: p.src_ip,
        dst_ip: p.dst_ip,
    };
    assert(ip == ip_header(p, 0));
    let ip_bytes: Vec<u8> = ip.as_bytes();
    proof {
        grpc::word_sum_bound(ip_bytes@);
    }
    ip.hdr_checksum = calculate_checksum(ip_bytes.as_slice());
    assert(ip == ip_header(p, ip_checksum(p)));

    let mut tcp = TcpHdr {
        src_port: p.src_port,
        dst_port: match p.profile {
            TrafficProfile::WrongPort => 9999,
            _ => p.dst_port,
        },
        seq_num: 1000,
        ack_num: 2000,
        data_offset_reserved_flags: 0x5000,
        window_size: 8192,
        checksum: 0,
        urgent_pointer: 0,
    };
    assert(tcp == tcp_header(p, 0));
    let mut segment: Vec<u8> = tcp.as_bytes();
    append_bytes(&mut segment, after_tcp.as_slice());
    if segment.len() % 2 != 0 {
        segment.push(0);
    }
    assert(segment@ == padded_segment(p));
    let len: [u8; 2] = endian::write_u16(segment.len() as u16);
    let mut pseudo: Vec<u8> = vec![
        p.src_ip[0], p.src_ip[1], p.src_ip[2], p.src_ip[3], p.dst_ip[0], p.dst_ip[1], p.dst_ip[2],
        p.dst_ip[3], 0, 6, len[0], len[1],
    ];
    append_bytes(&mut pseudo, segment.as_slice());
    proof {
        assert(pseudo@ =~= pseudo_segment(p));
        grpc::word_sum_bound(pseudo@);
    }
    tcp.checksum = match p.profile {
        TrafficProfile::BadTcpChecksum => 0xdead,
        _ => calculate_checksum(pseudo.as_slice()),
    };
    assert(tcp == tcp_header(p, tcp_checksum(p)));

    let mut bytes: Vec<u8> = eth.as_bytes();
    append_bytes(&mut bytes, ip.as_bytes().as_slice());
    append_bytes(&mut bytes, tcp.as_bytes().as_slice());
    append_bytes(&mut bytes, after_tcp.as_slice());
    bytes
}

// ---------------------------------------------------------------------------
// Laws
// ---------------------------------------------------------------------------

/// What is wrong with a packet of this kind. A wrong TCP checksum goes unnoticed.
pub open spec fn flaw(profile: TrafficProfile) -> Option<ValidationError> {
    match profile {
        TrafficProfile::ValidPacked => None,
        TrafficProfile::ValidUnpacked => None,
        TrafficProfile::BadTcpChecksum => None,
        TrafficProfile::InvalidShapeValue => Some(
            ValidationError::Proto(ProtoError::ShapeValueInvalid),
        ),
        TrafficProfile::ShapeDimLimitExceeded => Some(
            ValidationError::Proto(ProtoError::ShapeDimensionLimit),
        ),
        TrafficProfile::RecursionLimitExceeded => Some(
            ValidationError::Proto(ProtoError::RecursionLimit),
        ),
        TrafficProfile::InvalidVarint => Some(ValidationError::Proto(ProtoError::InvalidVarint)),
        TrafficProfile::BufferUnderflow => Some(
            ValidationError::Proto(ProtoError::BufferUnderflow),
        ),
        TrafficProfile::InvalidWireType => Some(
            ValidationError::Proto(ProtoError::InvalidWireType),
        ),
        TrafficProfile::BadIpHdrLen => Some(ValidationError::Parse(ParseError::BadIpHdrLen)),
        TrafficProfile::NonIpv4 => Some(ValidationError::Parse(ParseError::NonIPv4)),
        TrafficProfile::WrongPort => Some(ValidationError::Parse(ParseError::WrongPort)),
        TrafficProfile::BadHttp2 => Some(ValidationError::Parse(ParseError::NonHttp2Data)),
        TrafficProfile::BadGrpc => Some(ValidationError::Parse(ParseError::PayloadOverflow)),
    }
}

/// Settings under which each kind of packet shows its flaw, among them the
/// default ones: shapes are looked for in field 1, with room for the valid shapes
/// and no room for the nesting.
pub open spec fn reveals_flaws(config: ValidationConfig) -> bool {
    &&& config.shape_field_number == 1
    &&& config.max_dimensions >= 4
    &&& config.max_tensor_elements >= 150528
    &&& config.max_recursion_depth <= 3
    &&& config.max_varint_bytes >= 9
}

/// Where the parts of a packet stand.
proof fn packet_layout(p: PacketGenParams)
    ensures
        ({
            let buf = packet(p);
            let n = payload(p.profile).len();
            &&& n <= 22
            &&& buf.len() == 68 + n
            &&& endian::be16(buf.skip(12)) == eth_header(p).ether_type
            &&& buf[14] == ip_header(p, 0).version_ihl
            &&& buf[23] == 6
            &&& buf.subrange(14, 34) == ip_header(p, ip_checksum(p)).wire()
            &&& endian::be16(buf.skip(36)) == tcp_header(p, 0).dst_port
            &&& buf[46] == 0x50
            &&& endian::be24(buf.skip(54)) == n + 5
            &&& buf[57] == if p.profile is BadHttp2 {
                0xffu8
            } else {
                0u8
            }
            &&& endian::be32(buf.skip(64)) == if p.profile is BadGrpc {
                n + 1000
            } else {
                n
            }
            &&& forall|i: int| 0 <= i < n ==> buf[68 + i] == #[trigger] payload(p.profile)[i]
        }),
{
    let buf = packet(p);
    let n = payload(p.profile).len();
    let eth = eth_header(p);
    let ip = ip_header(p, ip_checksum(p));
    let tcp = tcp_header(p, tcp_checksum(p));
    let rest = tcp_payload(p);
    let message_len = if p.profile is BadGrpc {
        (n + 1000) as u32
    } else {
        n as u32
    };
    assert(eth.wire().len() == 14);
    assert(ip.wire().len() == 20);
    assert(tcp.wire().len() == 20);
    assert(rest.len() == 14 + n);
    assert(buf.subrange(12, 14) =~= endian::u16_bytes(eth.ether_type));
    endian::u16_round_trip(eth.ether_type, buf.subrange(12, 14));
    assert(buf.skip(12)[0] == buf.subrange(12, 14)[0] && buf.skip(12)[1] == buf.subrange(
        12,
        14,
    )[1]);
    assert(buf.subrange(14, 34) =~= ip.wire());
    assert(buf[14] == ip.wire()[0]);
    assert(buf[23] == ip.wire()[9]);
    assert(buf.subrange(34, 54) =~= tcp.wire());
    assert(tcp.wire().subrange(2, 4) =~= endian::u16_bytes(tcp.dst_port));
    assert(buf.subrange(36, 38) =~= buf.subrange(34, 54).subrange(2, 4));
    endian::u16_round_trip(tcp.dst_port, buf.subrange(36, 38));
    assert(buf.skip(36)[0] == buf.subrange(36, 38)[0] && buf.skip(36)[1] == buf.subrange(
        36,
        38,
    )[1]);
    assert(buf[46] == tcp.wire()[12]);
    assert(buf.skip(54) =~= rest);
    assert(buf[57] == rest[3]);
    assert(rest.subrange(10, 14) =~= endian::u32_bytes(message_len));
    assert(buf.subrange(64, 68) =~= rest.subrange(10, 14));
    endian::u32_round_trip(message_len, buf.subrange(64, 68));
    assert(forall|i: int| 0 <= i < 4 ==> buf.skip(64)[i] == #[trigger] buf.subrange(64, 68)[i]);
    assert forall|i: int| 0 <= i < n implies buf[68 + i] == #[trigger] payload(p.profile)[i] by {
        assert(buf[68 + i] == rest[14 + i]);
    }
}

/// The IPv4 header of a packet passes its check.
pub proof fn ip_checksum_passes(p: PacketGenParams)
    ensures
        grpc::checksum(ip_header(p, ip_checksum(p)).wire()) == 0,
{
    let zeroed = ip_header(p, 0).wire();
    grpc::inserted_checksum_passes(zeroed, 10);
    assert(grpc::with_word(zeroed, 10, ip_checksum(p)) =~= ip_header(p, ip_checksum(p)).wire());
}

/// What a receiver takes the TCP checksum of a packet over, where it counts the
/// padding in the length.
pub open spec fn received_segment(p: PacketGenParams) -> Seq<u8> {
    let segment = packet(p).skip(34);
    let padded = if segment.len() % 2 == 0 {
        segment
    } else {
        segment.push(0)
    };
    p.src_ip@ + p.dst_ip@ + seq![0u8, 6u8] + endian::u16_bytes(padded.len() as u16) + padded
}

/// The TCP checksum of a packet passes the check, unless the packet is of the kind
/// with a wrong one.
pub proof fn tcp_checksum_passes(p: PacketGenParams)
    requires
        p.profile !is BadTcpChecksum,
    ensures
        grpc::checksum(received_segment(p)) == 0,
{
    let tcp = tcp_header(p, 0);
    let sum = grpc::checksum(pseudo_segment(p)) as u16;
    assert(tcp.wire()[16] == 0 && tcp.wire()[17] == 0);
    assert(padded_segment(p)[16] == 0 && padded_segment(p)[17] == 0);
    assert(pseudo_segment(p)[28] == 0 && pseudo_segment(p)[29] == 0);
    grpc::inserted_checksum_passes(pseudo_segment(p), 28);
    assert(packet(p).skip(34) =~= tcp_header(p, sum).wire() + tcp_payload(p));
    assert(received_segment(p) =~= grpc::with_word(pseudo_segment(p), 28, sum));
}

/// The outcome of parsing a packet with headers of the usual lengths.
proof fn usual_packet_parses(buf: Seq<u8>, target_port: u16)
    requires
        buf.len() >= 68,
        buf[14] == 0x45,
        buf[23] == 6,
        grpc::checksum(buf.subrange(14, 34)) == 0,
        buf[46] == 0x50,
        buf.len() == 63 + endian::be24(buf.skip(54)),
    ensures
        grpc::payload_offset(buf) == 54,
        grpc::http2_payload_len(buf) == endian::be24(buf.skip(54)),
        grpc::grpc_message_len(buf) == endian::be32(buf.skip(64)),
        grpc::parse_error(buf, target_port) == if endian::be16(buf.skip(12)) != 0x0800 {
            Some(ParseError::NonIPv4)
        } else if endian::be16(buf.skip(36)) != target_port {
            Some(ParseError::WrongPort)
        } else if buf[57] != 0 {
            Some(ParseError::NonHttp2Data)
        } else if endian::be24(buf.skip(54)) < 5 + endian::be32(buf.skip(64)) {
            Some(ParseError::PayloadOverflow)
        } else {
            None
        },
{
    assert(grpc::ip_hdr_len(buf) == 20);
    assert(grpc::tcp_offset(buf) == 34);
    assert(grpc::tcp_hdr_len(buf) == 20);
    assert(grpc::payload_offset(buf) == 54);
}

/// A walk of the payload `bytes`, the last part of a packet, is about to start.
spec fn starts(buf: Seq<u8>, st: protobuf::WalkState, bytes: Seq<u8>) -> bool {
    &&& buf.len() == 68 + bytes.len()
    &&& buf.skip(68) == bytes
    &&& st.offset == 68
    &&& st.shape_len == 0
    &&& st.shape.len() == 16
}

/// One more dimension.
spec fn with_dim(st: protobuf::WalkState, next: int, dim: i64) -> protobuf::WalkState {
    protobuf::WalkState {
        offset: next,
        shape: st.shape.update(st.shape_len, dim),
        shape_len: st.shape_len + 1,
    }
}

proof fn valid_packed_walk(buf: Seq<u8>, st: protobuf::WalkState, config: ValidationConfig)
    requires
        reveals_flaws(config),
        starts(buf, st, seq![0x0a, 5, 1, 3, 0xe0, 0x01, 0xe0, 0x01]),
    ensures
        ({
            let (r, end) = protobuf::walk(buf, st, buf.len() as int, 0, config);
            &&& r is Ok
            &&& end.shape_len == 4
            &&& end.shape.take(4) == seq![1i64, 3, 224, 224]
        }),
{
    let max = config.max_varint_bytes as int;
    let b = buf.skip(68);
    assert(b[0] == 0x0a && b[1] == 5 && b[2] == 1 && b[3] == 3);
    assert(b[4] == 0xe0 && b[5] == 1 && b[6] == 0xe0 && b[7] == 1);
    protobuf::single_byte_varint(buf, 68, max);
    protobuf::single_byte_varint(buf, 69, max);
    protobuf::single_byte_varint(buf, 70, max);
    protobuf::single_byte_varint(buf, 71, max);
    protobuf::two_byte_varint(buf, 72, max);
    protobuf::two_byte_varint(buf, 74, max);
    let st0 = protobuf::WalkState { offset: 70, ..st };
    let st1 = with_dim(st0, 71, 1);
    let st2 = with_dim(st1, 72, 3);
    let st3 = with_dim(st2, 74, 224);
    let st4 = with_dim(st3, 76, 224);
    let done = (Ok::<(), ProtoError>(()), st4);
    assert(protobuf::read_packed(buf, st4, 75, max) == done);
    assert(protobuf::read_packed(buf, st3, 75, max) == done);
    assert(protobuf::read_packed(buf, st2, 75, max) == done);
    assert(protobuf::read_packed(buf, st1, 75, max) == done);
    assert(protobuf::read_packed(buf, st0, 75, max) == done);
    let tagged = protobuf::WalkState { offset: 69, ..st };
    assert(protobuf::read_shape_field(buf, tagged, 76, 2, max) == done);
    assert(protobuf::walk_fields(buf, st4, 76, 0, config) == done);
    assert(protobuf::walk_fields(buf, st, 76, 0, config) == done);
    assert(st4.shape.take(4) =~= seq![1i64, 3, 224, 224]);
}

proof fn valid_unpacked_walk(buf: Seq<u8>, st: protobuf::WalkState, config: ValidationConfig)
    requires
        reveals_flaws(config),
        starts(buf, st, seq![0x08, 1, 0x08, 3, 0x08, 10]),
    ensures
        ({
            let (r, end) = protobuf::walk(buf, st, buf.len() as int, 0, config);
            &&& r is Ok
            &&& end.shape_len == 3
            &&& end.shape.take(3) == seq![1i64, 3, 10]
        }),
{
    let max = config.max_varint_bytes as int;
    let b = buf.skip(68);
    assert(b[0] == 0x08 && b[1] == 1 && b[2] == 0x08 && b[3] == 3 && b[4] == 0x08 && b[5] == 10);
    protobuf::single_byte_varint(buf, 68, max);
    protobuf::single_byte_varint(buf, 69, max);
    protobuf::single_byte_varint(buf, 70, max);
    protobuf::single_byte_varint(buf, 71, max);
    protobuf::single_byte_varint(buf, 72, max);
    protobuf::single_byte_varint(buf, 73, max);
    let st1 = with_dim(st, 70, 1);
    let st2 = with_dim(st1, 72, 3);
    let st3 = with_dim(st2, 74, 10);
    let done = (Ok::<(), ProtoError>(()), st3);
    assert(protobuf::walk_fields(buf, st3, 74, 0, config) == done);
    assert(protobuf::walk_fields(buf, st2, 74, 0, config) == done);
    assert(protobuf::walk_fields(buf, st1, 74, 0, config) == done);
    assert(protobuf::walk_fields(buf, st, 74, 0, config) == done);
    assert(st3.shape.take(3) =~= seq![1i64, 3, 10]);
}

proof fn invalid_value_walk(buf: Seq<u8>, st: protobuf::WalkState, config: ValidationConfig)
    requires
        reveals_flaws(config),
        starts(buf, st, seq![0x0a, 3, 1, 0, 5]),
    ensures
        protobuf::walk(buf, st, buf.len() as int, 0, config).0 == Err::<(), _>(
            ProtoError::ShapeValueInvalid,
        ),
{
    let max = config.max_varint_bytes as int;
    let b = buf.skip(68);
    assert(b[0] == 0x0a && b[1] == 3 && b[2] == 1 && b[3] == 0 && b[4] == 5);
    protobuf::single_byte_varint(buf, 68, max);
    protobuf::single_byte_varint(buf, 69, max);
    protobuf::single_byte_varint(buf, 70, max);
    protobuf::single_byte_varint(buf, 71, max);
    let st0 = protobuf::WalkState { offset: 70, ..st };
    let st1 = with_dim(st0, 71, 1);
    let failed = Err::<(), _>(ProtoError::ShapeValueInvalid);
    assert(protobuf::read_packed(buf, st1, 73, max).0 == failed);
    assert(protobuf::read_packed(buf, st0, 73, max).0 == failed);
    assert(protobuf::walk_fields(buf, st, 73, 0, config).0 == failed);
}

/// Ones up to `end` are too many where the array has no room for them.
proof fn too_many_ones(buf: Seq<u8>, st: protobuf::WalkState, end: int, max: int)
    requires
        1 <= max,
        0 <= st.offset < end <= buf.len(),
        st.shape_len <= 16,
        forall|i: int| st.offset <= i < end ==> buf[i] == 1,
        end - st.offset > 16 - st.shape_len,
    ensures
        protobuf::read_packed(buf, st, end, max).0 == Err::<(), _>(
            ProtoError::ShapeDimensionLimit,
        ),
    decreases end - st.offset,
{
    protobuf::single_byte_varint(buf, st.offset, max);
    if st.shape_len < 16 {
        too_many_ones(buf, with_dim(st, st.offset + 1, 1), end, max);
    }
}

proof fn too_many_dims_walk(buf: Seq<u8>, st: protobuf::WalkState, config: ValidationConfig)
    requires
        reveals_flaws(config),
        starts(buf, st, seq![0x0a, 20] + Seq::new(20, |i: int| 1u8)),
    ensures
        protobuf::walk(buf, st, buf.len() as int, 0, config).0 == Err::<(), _>(
            ProtoError::ShapeDimensionLimit,
        ),
{
    let max = config.max_varint_bytes as int;
    let b = buf.skip(68);
    assert(b[0] == 0x0a && b[1] == 20);
    assert forall|i: int| 70 <= i < 90 implies buf[i] == 1 by {
        assert(b[i - 68] == 1);
    }
    protobuf::single_byte_varint(buf, 68, max);
    protobuf::single_byte_varint(buf, 69, max);
    too_many_ones(buf, protobuf::WalkState { offset: 70, ..st }, 90, max);
    assert(protobuf::walk_fields(buf, st, 90, 0, config).0 == Err::<(), _>(
        ProtoError::ShapeDimensionLimit,
    ));
}

proof fn deep_walk(buf: Seq<u8>, st: protobuf::WalkState, config: ValidationConfig)
    requires
        reveals_flaws(config),
        starts(buf, st, seq![0x12, 9, 0x12, 7, 0x12, 5, 0x12, 3, 0x0a, 1, 1]),
    ensures
        protobuf::walk(buf, st, buf.len() as int, 0, config).0 == Err::<(), _>(
            ProtoError::RecursionLimit,
        ),
{
    let inner = seq![0x0au8, 1, 1];
    assert(protobuf::nested(0, inner) == inner);
    assert(protobuf::nested(1, inner) =~= seq![0x12u8, 3, 0x0a, 1, 1]);
    assert(protobuf::nested(2, inner) =~= seq![0x12u8, 5, 0x12, 3, 0x0a, 1, 1]);
    assert(protobuf::nested(3, inner) =~= seq![0x12u8, 7, 0x12, 5, 0x12, 3, 0x0a, 1, 1]);
    assert(protobuf::nested(4, inner) =~= seq![0x12u8, 9, 0x12, 7, 0x12, 5, 0x12, 3, 0x0a, 1, 1]);
    assert(buf.subrange(68, 79) =~= buf.skip(68));
    protobuf::deep_nesting_is_refused(buf, st, 4, inner, 0, config);
}

proof fn endless_varint_walk(buf: Seq<u8>, st: protobuf::WalkState, config: ValidationConfig)
    requires
        reveals_flaws(config),
        starts(
            buf,
            st,
            seq![0x08, 0xff, 0xff, 0xff, 0xff, 0xff, 0xff, 0xff, 0xff, 0xff, 0xff, 0x01],
        ),
    ensures
        protobuf::walk(buf, st, buf.len() as int, 0, config).0 == Err::<(), _>(
            ProtoError::InvalidVarint,
        ),
{
    let max = config.max_varint_bytes as int;
    let b = buf.skip(68);
    assert(b[0] == 0x08 && b[1] == 0xff && b[2] == 0xff && b[3] == 0xff && b[4] == 0xff);
    assert(b[5] == 0xff && b[6] == 0xff && b[7] == 0xff && b[8] == 0xff && b[9] == 0xff);
    assert(b[10] == 0xff && b[11] == 1);
    protobuf::single_byte_varint(buf, 68, max);
    assert(protobuf::terminator(buf, 79) == 79);
    assert(protobuf::terminator(buf, 78) == 79);
    assert(protobuf::terminator(buf, 77) == 79);
    assert(protobuf::terminator(buf, 76) == 79);
    assert(protobuf::terminator(buf, 75) == 79);
    assert(protobuf::terminator(buf, 74) == 79);
    assert(protobuf::terminator(buf, 73) == 79);
    assert(protobuf::terminator(buf, 72) == 79);
    assert(protobuf::terminator(buf, 71) == 79);
    assert(protobuf::terminator(buf, 70) == 79);
    assert(protobuf::terminator(buf, 69) == 79);
    assert(protobuf::varint(buf, 69, max).0 == Err::<u64, _>(ProtoError::InvalidVarint));
    assert(protobuf::walk_fields(buf, st, 80, 0, config).0 == Err::<(), _>(
        ProtoError::InvalidVarint,
    ));
}

proof fn underflow_walk(buf: Seq<u8>, st: protobuf::WalkState, config: ValidationConfig)
    requires
        reveals_flaws(config),
        starts(buf, st, seq![0x0a, 100, 1, 2, 3]),
    ensures
        protobuf::walk(buf, st, buf.len() as int, 0, config).0 == Err::<(), _>(
            ProtoError::BufferUnderflow,
        ),
{
    let max = config.max_varint_bytes as int;
    let b = buf.skip(68);
    assert(b[0] == 0x0a && b[1] == 100 && b.len() == 5);
    protobuf::single_byte_varint(buf, 68, max);
    protobuf::single_byte_varint(buf, 69, max);
    assert(protobuf::walk_fields(buf, st, 73, 0, config).0 == Err::<(), _>(
        ProtoError::BufferUnderflow,
    ));
}

proof fn wire_type_walk(buf: Seq<u8>, st: protobuf::WalkState, config: ValidationConfig)
    requires
        reveals_flaws(config),
        starts(buf, st, seq![0x0d, 1, 2, 3, 4]),
    ensures
        protobuf::walk(buf, st, buf.len() as int, 0, config).0 == Err::<(), _>(
            ProtoError::InvalidWireType,
        ),
{
    let max = config.max_varint_bytes as int;
    let b = buf.skip(68);
    assert(b[0] == 0x0d && b.len() == 5);
    protobuf::single_byte_varint(buf, 68, max);
    assert(protobuf::walk_fields(buf, st, 73, 0, config).0 == Err::<(), _>(
        ProtoError::InvalidWireType,
    ));
}

/// The numbers of elements of the valid shapes.
proof fn valid_shapes_fit()
    ensures
        protobuf::element_count(seq![1i64, 3, 224, 224]) == 150528,
        protobuf::element_count(seq![1i64, 3, 10]) == 30,
{
    reveal_with_fuel(protobuf::element_count, 5);
    assert(seq![1i64, 3, 224, 224].drop_last() =~= seq![1i64, 3, 224]);
    assert(seq![1i64, 3, 224].drop_last() =~= seq![1i64, 3]);
    assert(seq![1i64, 3, 10].drop_last() =~= seq![1i64, 3]);
    assert(seq![1i64, 3].drop_last() =~= seq![1i64]);
    assert(seq![1i64].drop_last() =~= Seq::<i64>::empty());
    assert(protobuf::element_count(seq![1i64]) == 1);
    assert(protobuf::element_count(seq![1i64, 3]) == 3);
    assert(protobuf::element_count(seq![1i64, 3, 224]) == 672);
}

/// A packet with a wrong length of the IPv4 header is refused for that, whatever
/// port is looked for.
pub proof fn bad_header_length_is_refused(p: PacketGenParams, target_port: u16)
    requires
        p.profile is BadIpHdrLen,
    ensures
        grpc::parse_error(packet(p), target_port) == Some(ParseError::BadIpHdrLen),
        packet(p).len() >= 34,
        packet(p)[14] == 0x44,
{
    packet_layout(p);
    short_header_is_refused(packet(p), target_port);
}

proof fn short_header_is_refused(buf: Seq<u8>, target_port: u16)
    requires
        buf.len() >= 34,
        endian::be16(buf.skip(12)) == 0x0800,
        buf[14] == 0x44,
    ensures
        grpc::parse_error(buf, target_port) == Some(ParseError::BadIpHdrLen),
{
    assert(grpc::ip_hdr_len(buf) == 16);
}

/// Every packet shows the flaw of its kind and no other, whatever its addresses
/// and ports are.
pub proof fn packet_shows_its_flaw(p: PacketGenParams, config: ValidationConfig)
    requires
        p.profile is WrongPort ==> p.dst_port != 9999,
        reveals_flaws(config),
        config.target_port == p.dst_port,
    ensures
        protobuf::validation_error(packet(p), config) == flaw(p.profile),
{
    packet_layout(p);
    ip_checksum_passes(p);
    if p.profile is BadIpHdrLen {
        bad_header_length_is_refused(p, p.dst_port);
    } else {
        packet_validates(packet(p), p, config);
    }
}

proof fn packet_validates(buf: Seq<u8>, p: PacketGenParams, config: ValidationConfig)
    requires
        p.profile !is BadIpHdrLen,
        p.profile is WrongPort ==> p.dst_port != 9999,
        reveals_flaws(config),
        config.target_port == p.dst_port,
        buf.len() == 68 + payload(p.profile).len(),
        endian::be16(buf.skip(12)) == eth_header(p).ether_type,
        buf[14] == 0x45,
        buf[23] == 6,
        grpc::checksum(buf.subrange(14, 34)) == 0,
        endian::be16(buf.skip(36)) == tcp_header(p, 0).dst_port,
        buf[46] == 0x50,
        endian::be24(buf.skip(54)) == payload(p.profile).len() + 5,
        buf[57] == if p.profile is BadHttp2 {
            0xffu8
        } else {
            0u8
        },
        endian::be32(buf.skip(64)) == if p.profile is BadGrpc {
            payload(p.profile).len() + 1000
        } else {
            payload(p.profile).len()
        },
        forall|i: int|
            0 <= i < payload(p.profile).len() ==> buf[68 + i] == #[trigger] payload(p.profile)[i],
    ensures
        protobuf::validation_error(buf, config) == flaw(p.profile),
{
    usual_packet_parses(buf, p.dst_port);
    let st = protobuf::payload_start(buf);
    assert(buf.skip(68) =~= payload(p.profile));
    valid_shapes_fit();
    match p.profile {
        TrafficProfile::ValidUnpacked => valid_unpacked_walk(buf, st, config),
        TrafficProfile::InvalidShapeValue => invalid_value_walk(buf, st, config),
        TrafficProfile::ShapeDimLimitExceeded => too_many_dims_walk(buf, st, config),
        TrafficProfile::RecursionLimitExceeded => deep_walk(buf, st, config),
        TrafficProfile::InvalidVarint => endless_varint_walk(buf, st, config),
        TrafficProfile::BufferUnderflow => underflow_walk(buf, st, config),
        TrafficProfile::InvalidWireType => wire_type_walk(buf, st, config),
        _ => valid_packed_walk(buf, st, config),
    }
}

/// A packet is between the addresses and ports that were asked for, but for the kind with
/// a wrong port; its length in the IPv4 header is that of everything behind the Ethernet
/// header, but for the kind with a wrong header; and its payload stands at its end.
pub proof fn packet_carries_what_was_asked(p: PacketGenParams)
    ensures
        ({
            let buf = packet(p);
            let n = payload(p.profile).len();
            &&& buf.len() == 68 + n
            &&& buf.subrange(0, 6) == p.dst_mac@
            &&& buf.subrange(6, 12) == p.src_mac@
            &&& buf.subrange(26, 30) == p.src_ip@
            &&& buf.subrange(30, 34) == p.dst_ip@
            &&& endian::be16(buf.skip(34)) == p.src_port
            &&& p.profile !is WrongPort ==> endian::be16(buf.skip(36)) == p.dst_port
            &&& p.profile !is BadIpHdrLen ==> endian::be16(buf.skip(16)) == buf.len() - 14
            &&& buf.skip(68) == payload(p.profile)
        }),
{
    let buf = packet(p);
    let eth = eth_header(p);
    let ip = ip_header(p, ip_checksum(p));
    let tcp = tcp_header(p, tcp_checksum(p));
    packet_layout(p);
    grpc::ethernet_layout(eth);
    grpc::ip_layout(ip);
    grpc::tcp_layout(tcp);
    let rest = tcp_payload(p);
    assert(rest.len() == 14 + payload(p.profile).len());
    assert(buf.subrange(0, 6) =~= eth.wire().subrange(0, 6));
    assert(buf.subrange(6, 12) =~= eth.wire().subrange(6, 12));
    assert(buf.subrange(26, 30) =~= ip.wire().subrange(12, 16));
    assert(buf.subrange(30, 34) =~= ip.wire().subrange(16, 20));
    assert(buf.skip(34)[0] == tcp.wire()[0] && buf.skip(34)[1] == tcp.wire()[1]);
    assert(buf.skip(36)[0] == tcp.wire()[2] && buf.skip(36)[1] == tcp.wire()[3]);
    assert(buf.skip(16)[0] == ip.wire()[2] && buf.skip(16)[1] == ip.wire()[3]);
    assert(buf.skip(68) =~= payload(p.profile));
}

/// A packet without flaws reports the shape of its kind: four dimensions for an image in a
/// single field, or three in fields of their own.
pub proof fn valid_packet_reports_its_shape(p: PacketGenParams, config: ValidationConfig)
    requires
        p.profile is ValidPacked || p.profile is ValidUnpacked,
        reveals_flaws(config),
        config.target_port == p.dst_port,
    ensures
        ({
            let st = protobuf::payload_walk(packet(p), config).1;
            let shape = if p.profile is ValidPacked {
                seq![1i64, 3, 224, 224]
            } else {
                seq![1i64, 3, 10]
            };
            st.shape_len == shape.len() && st.shape.take(st.shape_len) == shape
        }),
{
    packet_layout(p);
    ip_checksum_passes(p);
    valid_shape_is_found(packet(p), p.profile, config);
}

proof fn valid_shape_is_found(buf: Seq<u8>, profile: TrafficProfile, config: ValidationConfig)
    requires
        profile is ValidPacked || profile is ValidUnpacked,
        reveals_flaws(config),
        buf.len() == 68 + payload(profile).len(),
        buf[14] == 0x45,
        buf[23] == 6,
        grpc::checksum(buf.subrange(14, 34)) == 0,
        buf[46] == 0x50,
        endian::be24(buf.skip(54)) == payload(profile).len() + 5,
        forall|i: int|
            0 <= i < payload(profile).len() ==> buf[68 + i] == #[trigger] payload(profile)[i],
    ensures
        ({
            let st = protobuf::payload_walk(buf, config).1;
            let shape = if profile is ValidPacked {
                seq![1i64, 3, 224, 224]
            } else {
                seq![1i64, 3, 10]
            };
            st.shape_len == shape.len() && st.shape.take(st.shape_len) == shape
        }),
{
    usual_packet_parses(buf, 0);
    let st = protobuf::payload_start(buf);
    assert(buf.skip(68) =~= payload(profile));
    if profile is ValidPacked {
        valid_packed_walk(buf, st, config);
    } else {
        valid_unpacked_walk(buf, st, config);
    }
}

} // verus!
