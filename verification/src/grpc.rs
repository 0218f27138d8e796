//! Headers of a gRPC packet and the parser that checks them layer by layer.
use crate::endian;
use crate::endian::{read_u16, read_u32, write_u16, write_u32};
use vstd::prelude::*;

verus! {

/// Ethernet header (14 bytes).
#[derive(Clone, Copy, Debug)]
pub struct EtherHdr {
    pub dst_mac: [u8; 6],
    pub src_mac: [u8; 6],
    pub ether_type: u16,
}

impl EtherHdr {
    /// The header as it stands on the wire.
    pub open spec fn wire(self) -> Seq<u8> {
        self.dst_mac@ + self.src_mac@ + endian::u16_bytes(self.ether_type)
    }

    /// The header as it stands on the wire.
    pub fn as_bytes(&self) -> (bytes: Vec<u8>)
        ensures
            bytes@ == self.wire(),
            bytes@.len() == 14,
    {
        let t: [u8; 2] = write_u16(self.ether_type);
        let d: [u8; 6] = self.dst_mac;
        let s: [u8; 6] = self.src_mac;
        vec![d[0], d[1], d[2], d[3], d[4], d[5], s[0], s[1], s[2], s[3], s[4], s[5], t[0], t[1]]
    }

    /// The header that 14 bytes hold; `None` for any other number of bytes.
    pub fn read_from(bytes: &[u8]) -> (hdr: Option<EtherHdr>)
        ensures
            hdr is Some <==> bytes@.len() == 14,
            hdr matches Some(h) ==> h.wire() == bytes@,
    {
        if bytes.len() != 14 {
            return None;
        }
        let h = EtherHdr {
            dst_mac: [bytes[0], bytes[1], bytes[2], bytes[3], bytes[4], bytes[5]],
            src_mac: [bytes[6], bytes[7], bytes[8], bytes[9], bytes[10], bytes[11]],
            ether_type: read_u16([bytes[12], bytes[13]]),
        };
        assert(h.wire() =~= bytes@);
        Some(h)
    }
}


/// IPv4 header without options (20 bytes).
#[derive(Clone, Copy, Debug)]
pub struct IpHdr {
    pub version_ihl: u8,
    pub tos: u8,
    pub total_len: u16,
    pub id: u16,
    pub flags_fragment: u16,
    pub ttl: u8,
    pub proto: u8,
    pub hdr_checksum: u16,
    pub src_ip: [u8; 4],
    pub dst_ip: [u8; 4],
}

impl IpHdr {
    /// The header as it stands on the wire.
    pub open spec fn wire(self) -> Seq<u8> {
        seq![self.version_ihl, self.tos]
            + endian::u16_bytes(self.total_len)
            + endian::u16_bytes(self.id)
            + endian::u16_bytes(self.flags_fragment)
            + seq![self.ttl, self.proto]
            + endian::u16_bytes(self.hdr_checksum)
            + self.src_ip@
            + self.dst_ip@
    }

    /// The header as it stands on the wire.
    pub fn as_bytes(&self) -> (bytes: Vec<u8>)
        ensures
            bytes@ == self.wire(),
            bytes@.len() == 20,
    {
        let l: [u8; 2] = write_u16(self.total_len);
        let i: [u8; 2] = write_u16(self.id);
        let f: [u8; 2] = write_u16(self.flags_fragment);
        let c: [u8; 2] = write_u16(self.hdr_checksum);
        let s: [u8; 4] = self.src_ip;
        let d: [u8; 4] = self.dst_ip;
        let bytes: Vec<u8> = vec![
            self.version_ihl, self.tos, l[0], l[1], i[0], i[1], f[0], f[1], self.ttl, self.proto,
            c[0], c[1], s[0], s[1], s[2], s[3], d[0], d[1], d[2], d[3],
        ];
        assert(bytes@ =~= self.wire());
        bytes
    }

    /// The header that 20 bytes hold; `None` for any other number of bytes.
    pub fn read_from(bytes: &[u8]) -> (hdr: Option<IpHdr>)
        ensures
            hdr is Some <==> bytes@.len() == 20,
            hdr matches Some(h) ==> h.wire() == bytes@,
    {
        if bytes.len() != 20 {
            return None;
        }
        let h = IpHdr {
            version_ihl: bytes[0],
            tos: bytes[1],
            total_len: read_u16([bytes[2], bytes[3]]),
            id: read_u16([bytes[4], bytes[5]]),
            flags_fragment: read_u16([bytes[6], bytes[7]]),
            ttl: bytes[8],
            proto: bytes[9],
            hdr_checksum: read_u16([bytes[10], bytes[11]]),
            src_ip: [bytes[12], bytes[13], bytes[14], bytes[15]],
            dst_ip: [bytes[16], bytes[17], bytes[18], bytes[19]],
        };
        assert(h.wire() =~= bytes@);
        Some(h)
    }
}

/// TCP header without options (20 bytes).
#[derive(Clone, Copy, Debug)]
pub struct TcpHdr {
    pub src_port: u16,
    pub dst_port: u16,
    pub seq_num: u32,
    pub ack_num: u32,
    pub data_offset_reserved_flags: u16,
    pub window_size: u16,
    pub checksum: u16,
    pub urgent_pointer: u16,
}

impl TcpHdr {
    /// The header as it stands on the wire.
    pub open spec fn wire(self) -> Seq<u8> {
        endian::u16_bytes(self.src_port)
            + endian::u16_bytes(self.dst_port)
            + endian::u32_bytes(self.seq_num)
            + endian::u32_bytes(self.ack_num)
            + endian::u16_bytes(self.data_offset_reserved_flags)
            + endian::u16_bytes(self.window_size)
            + endian::u16_bytes(self.checksum)
            + endian::u16_bytes(self.urgent_pointer)
    }

    /// The header as it stands on the wire.
    pub fn as_bytes(&self) -> (bytes: Vec<u8>)
        ensures
            bytes@ == self.wire(),
            bytes@.len() == 20,
    {
        let s: [u8; 2] = write_u16(self.src_port);
        let d: [u8; 2] = write_u16(self.dst_port);
        let n: [u8; 4] = write_u32(self.seq_num);
        let a: [u8; 4] = write_u32(self.ack_num);
        let o: [u8; 2] = write_u16(self.data_offset_reserved_flags);
        let w: [u8; 2] = write_u16(self.window_size);
        let c: [u8; 2] = write_u16(self.checksum);
        let u: [u8; 2] = write_u16(self.urgent_pointer);
        let bytes: Vec<u8> = vec![
            s[0], s[1], d[0], d[1], n[0], n[1], n[2], n[3], a[0], a[1], a[2], a[3], o[0], o[1],
            w[0], w[1], c[0], c[1], u[0], u[1],
        ];
        assert(bytes@ =~= self.wire());
        bytes
    }

    /// The header that 20 bytes hold; `None` for any other number of bytes.
    pub fn read_from(bytes: &[u8]) -> (hdr: Option<TcpHdr>)
        ensures
            hdr is Some <==> bytes@.len() == 20,
            hdr matches Some(h) ==> h.wire() == bytes@,
    {
        if bytes.len() != 20 {
            return None;
        }
        let h = TcpHdr {
            src_port: read_u16([bytes[0], bytes[1]]),
            dst_port: read_u16([bytes[2], bytes[3]]),
            seq_num: read_u32([bytes[4], bytes[5], bytes[6], bytes[7]]),
            ack_num: read_u32([bytes[8], bytes[9], bytes[10], bytes[11]]),
            data_offset_reserved_flags: read_u16([bytes[12], bytes[13]]),
            window_size: read_u16([bytes[14], bytes[15]]),
            checksum: read_u16([bytes[16], bytes[17]]),
            urgent_pointer: read_u16([bytes[18], bytes[19]]),
        };
        proof {
            endian::u32_round_trip(h.seq_num, bytes@.subrange(4, 8));
            endian::u32_round_trip(h.ack_num, bytes@.subrange(8, 12));
        }
        assert(h.wire() =~= bytes@);
        Some(h)
    }
}

/// HTTP/2 frame header (9 bytes).
#[derive(Clone, Copy, Debug)]
pub struct Http2Hdr {
    /// Length of the frame's payload, a 24-bit number.
    pub length: [u8; 3],
    /// 0 for a DATA frame.
    pub frame_type: u8,
    pub flags: u8,
    pub stream_id: u32,
}

impl Http2Hdr {
    /// The header as it stands on the wire.
    pub open spec fn wire(self) -> Seq<u8> {
        self.length@ + seq![self.frame_type, self.flags] + endian::u32_bytes(self.stream_id)
    }

    /// The header as it stands on the wire.
    pub fn as_bytes(&self) -> (bytes: Vec<u8>)
        ensures
            bytes@ == self.wire(),
            bytes@.len() == 9,
    {
        let l: [u8; 3] = self.length;
        let s: [u8; 4] = write_u32(self.stream_id);
        let bytes: Vec<u8> = vec![
            l[0], l[1], l[2], self.frame_type, self.flags, s[0], s[1], s[2], s[3],
        ];
        assert(bytes@ =~= self.wire());
        bytes
    }

    /// The header that 9 bytes hold; `None` for any other number of bytes.
    pub fn read_from(bytes: &[u8]) -> (hdr: Option<Http2Hdr>)
        ensures
            hdr is Some <==> bytes@.len() == 9,
            hdr matches Some(h) ==> h.wire() == bytes@,
    {
        if bytes.len() != 9 {
            return None;
        }
        let h = Http2Hdr {
            length: [bytes[0], bytes[1], bytes[2]],
            frame_type: bytes[3],
            flags: bytes[4],
            stream_id: read_u32([bytes[5], bytes[6], bytes[7], bytes[8]]),
        };
        proof {
            endian::u32_round_trip(h.stream_id, bytes@.subrange(5, 9));
        }
        assert(h.wire() =~= bytes@);
        Some(h)
    }

    /// Length of the frame's payload.
    pub fn payload_len(&self) -> (len: usize)
        ensures
            len == endian::be24(self.length@),
            len < 0x100_0000,
    {
        self.length[0] as usize * 0x1_0000 + self.length[1] as usize * 0x100
            + self.length[2] as usize
    }
}

/// gRPC message header (5 bytes).
#[derive(Clone, Copy, Debug)]
pub struct GrpcHdr {
    /// 0 or 1.
    pub compression_flag: u8,
    pub message_len: u32,
}

impl GrpcHdr {
    /// The header as it stands on the wire.
    pub open spec fn wire(self) -> Seq<u8> {
        seq![self.compression_flag] + endian::u32_bytes(self.message_len)
    }

    /// The header as it stands on the wire.
    pub fn as_bytes(&self) -> (bytes: Vec<u8>)
        ensures
            bytes@ == self.wire(),
            bytes@.len() == 5,
    {
        let m: [u8; 4] = write_u32(self.message_len);
        let bytes: Vec<u8> = vec![self.compression_flag, m[0], m[1], m[2], m[3]];
        assert(bytes@ =~= self.wire());
        bytes
    }

    /// The header that 5 bytes hold; `None` for any other number of bytes.
    pub fn read_from(bytes: &[u8]) -> (hdr: Option<GrpcHdr>)
        ensures
            hdr is Some <==> bytes@.len() == 5,
            hdr matches Some(h) ==> h.wire() == bytes@,
    {
        if bytes.len() != 5 {
            return None;
        }
        let h = GrpcHdr {
            compression_flag: bytes[0],
            message_len: read_u32([bytes[1], bytes[2], bytes[3], bytes[4]]),
        };
        proof {
            endian::u32_round_trip(h.message_len, bytes@.subrange(1, 5));
        }
        assert(h.wire() =~= bytes@);
        Some(h)
    }
}

/// Sum of the 16-bit words of `data`, most significant byte first; an odd last
/// byte is followed by a zero.
pub open spec fn word_sum(data: Seq<u8>) -> int
    decreases data.len(),
{
    if data.len() == 0 {
        0
    } else if data.len() == 1 {
        data[0] * 0x100
    } else {
        endian::be16(data) + word_sum(data.skip(2))
    }
}

/// The residue of `sum` modulo 0xffff that one's complement addition arrives
/// at: zero only for zero, otherwise between 1 and 0xffff.
pub open spec fn ones_sum(sum: int) -> int {
    if sum == 0 {
        0
    } else {
        1 + (sum - 1) % 0xffff
    }
}

/// The internet checksum of `data`.
pub open spec fn checksum(data: Seq<u8>) -> int {
    0xffff - ones_sum(word_sum(data))
}

/// The word sum is not negative and grows by at most 0xffff a word.
pub proof fn word_sum_bound(data: Seq<u8>)
    ensures
        0 <= word_sum(data) <= 0xffff * ((data.len() + 1) / 2),
    decreases data.len(),
{
    if data.len() >= 2 {
        word_sum_bound(data.skip(2));
    }
}

/// Folding the carry back in keeps the one's complement sum.
proof fn fold_keeps_ones_sum(sum: u32)
    ensures
        sum >> 16 == sum / 0x1_0000,
        sum & 0xffff == sum % 0x1_0000,
        sum / 0x1_0000 != 0 ==> sum % 0x1_0000 + sum / 0x1_0000 < sum,
        ones_sum((sum % 0x1_0000 + sum / 0x1_0000) as int) == ones_sum(sum as int),
{
    assert(sum >> 16 == sum / 0x1_0000) by (bit_vector);
    assert(sum & 0xffff == sum % 0x1_0000) by (bit_vector);
    let hi = sum as int / 0x1_0000;
    let lo = sum as int % 0x1_0000;
    assert(sum == hi * 0x1_0000 + lo);
    if sum != 0 {
        assert(sum - 1 == hi * 0xffff + (lo + hi - 1));
        assert((hi * 0xffff + (lo + hi - 1)) % 0xffff == (lo + hi - 1) % 0xffff)
            by (nonlinear_arith);
    }
}

/// Calculates the internet checksum over a slice of bytes. The result is 0 where
/// the bytes hold their own correct checksum.
pub fn calculate_checksum(data: &[u8]) -> (sum: u16)
    requires
        word_sum(data@) <= u32::MAX,
    ensures
        sum == checksum(data@),
{
    let mut sum: u32 = 0;
    let mut i: usize = 0;
    assert(data@.skip(0) =~= data@);
    while i < data.len()
        invariant
            i <= data@.len(),
            sum + word_sum(data@.skip(i as int)) == word_sum(data@),
            word_sum(data@) <= u32::MAX,
        decreases data@.len() - i,
    {
        let ghost rest = data@.skip(i as int);
        proof {
            word_sum_bound(rest.skip(2));
        }
        if data.len() - i >= 2 {
            let word: u16 = endian::join_u16(data[i], data[i + 1]);
            assert(rest.skip(2) =~= data@.skip(i + 2));
            sum = sum + word as u32;
            i = i + 2;
        } else {
            let last: u8 = data[i];
            sum = sum + last as u32 * 0x100;
            assert(data@.skip(i + 1).len() == 0);
            i = i + 1;
        }
    }
    while sum >> 16 != 0
        invariant
            ones_sum(sum as int) == ones_sum(word_sum(data@)),
        decreases sum,
    {
        proof {
            fold_keeps_ones_sum(sum);
        }
        sum = (sum & 0xffff) + (sum >> 16);
    }
    proof {
        fold_keeps_ones_sum(sum);
    }
    let folded: u16 = sum as u16;
    assert(ones_sum(folded as int) == folded);
    0xffff - folded
}


/// What a packet failed on, layer by layer.
#[derive(Clone, Copy, Debug, PartialEq, Eq, Structural)]
pub enum ParseError {
    BufferTooSmall,
    NonIPv4,
    BadIpHdrLen,
    NonTCP,
    BadIpChecksum,
    BadTcpHdrLen,
    WrongPort,
    BadHttp2Hdr,
    NonHttp2Data,
    BadGrpcHdr,
    PayloadOverflow,
}

/// The headers of a packet that passed every check.
#[derive(Clone, Copy, Debug)]
pub struct ParsedGrpc {
    pub eth: EtherHdr,
    pub ip: IpHdr,
    pub tcp: TcpHdr,
    pub http2: Http2Hdr,
    pub grpc: GrpcHdr,
}

/// Length of the IPv4 header: four times the low half of its first byte.
pub open spec fn ip_hdr_len(buf: Seq<u8>) -> int {
    buf[14] % 16 * 4
}

/// Where the TCP header starts.
pub open spec fn tcp_offset(buf: Seq<u8>) -> int {
    14 + ip_hdr_len(buf)
}

/// Length of the TCP header: four times the high half of its 13th byte.
pub open spec fn tcp_hdr_len(buf: Seq<u8>) -> int {
    buf[tcp_offset(buf) + 12] / 16 * 4
}

/// Where the TCP payload, and with it the HTTP/2 frame, starts.
pub open spec fn payload_offset(buf: Seq<u8>) -> int {
    tcp_offset(buf) + tcp_hdr_len(buf)
}

/// Length of the HTTP/2 frame's payload.
pub open spec fn http2_payload_len(buf: Seq<u8>) -> int {
    endian::be24(buf.skip(payload_offset(buf)))
}

/// Length of the gRPC message.
pub open spec fn grpc_message_len(buf: Seq<u8>) -> int {
    endian::be32(buf.skip(payload_offset(buf) + 10))
}

/// The first check that `buf` fails as a packet to `target_port`, if any.
pub open spec fn parse_error(buf: Seq<u8>, target_port: u16) -> Option<ParseError> {
    if buf.len() < 14 {
        Some(ParseError::BufferTooSmall)
    } else if endian::be16(buf.skip(12)) != 0x0800 {
        Some(ParseError::NonIPv4)
    } else if buf.len() < 34 {
        Some(ParseError::BufferTooSmall)
    } else if ip_hdr_len(buf) < 20 {
        Some(ParseError::BadIpHdrLen)
    } else if buf.len() < tcp_offset(buf) {
        Some(ParseError::BufferTooSmall)
    } else if buf[23] != 6 {
        Some(ParseError::NonTCP)
    } else if checksum(buf.subrange(14, tcp_offset(buf))) != 0 {
        Some(ParseError::BadIpChecksum)
    } else if buf.len() < tcp_offset(buf) + 20 {
        Some(ParseError::BufferTooSmall)
    } else if endian::be16(buf.skip(tcp_offset(buf) + 2)) != target_port {
        Some(ParseError::WrongPort)
    } else if tcp_hdr_len(buf) < 20 {
        Some(ParseError::BadTcpHdrLen)
    } else if buf.len() < payload_offset(buf) + 9 {
        Some(ParseError::BufferTooSmall)
    } else if buf[payload_offset(buf) + 3] != 0 {
        Some(ParseError::NonHttp2Data)
    } else if buf.len() < payload_offset(buf) + 9 + http2_payload_len(buf) {
        Some(ParseError::PayloadOverflow)
    } else if http2_payload_len(buf) < 5 {
        Some(ParseError::BadGrpcHdr)
    } else if http2_payload_len(buf) < 5 + grpc_message_len(buf) {
        Some(ParseError::PayloadOverflow)
    } else {
        None
    }
}

impl ParsedGrpc {
    /// Each header is what the bytes at its place in `buf` encode.
    pub open spec fn read_at(self, buf: Seq<u8>) -> bool {
        let tcp = tcp_offset(buf);
        let payload = payload_offset(buf);
        &&& self.eth.wire() == buf.subrange(0, 14)
        &&& self.ip.wire() == buf.subrange(14, 34)
        &&& self.tcp.wire() == buf.subrange(tcp, tcp + 20)
        &&& self.http2.wire() == buf.subrange(payload, payload + 9)
        &&& self.grpc.wire() == buf.subrange(payload + 9, payload + 14)
    }
}

impl ParsedGrpc {
    /// Where the HTTP/2 frame starts, by the lengths in the headers.
    pub fn payload_offset(&self) -> (offset: usize)
        ensures
            offset == 14 + self.ip.version_ihl % 16 * 4 + self.tcp.data_offset_reserved_flags
                / 0x1000 * 4,
    {
        let v: u8 = self.ip.version_ihl;
        let f: u16 = self.tcp.data_offset_reserved_flags;
        assert(v & 0x0f == v % 16) by (bit_vector);
        assert(f >> 12 == f / 0x1000) by (bit_vector);
        14 + (v & 0x0f) as usize * 4 + (f >> 12) as usize * 4
    }

    /// The lengths in the headers are those in the packet that they were read
    /// from.
    pub proof fn offsets_match(self, buf: Seq<u8>)
        requires
            buf.len() >= 34,
            tcp_offset(buf) + 20 <= buf.len(),
            payload_offset(buf) + 14 <= buf.len(),
            self.read_at(buf),
        ensures
            14 + self.ip.version_ihl % 16 * 4 + self.tcp.data_offset_reserved_flags / 0x1000 * 4
                == payload_offset(buf),
            endian::be24(self.http2.length@) == http2_payload_len(buf),
            self.grpc.message_len == grpc_message_len(buf),
    {
        ip_fields(self.ip, buf);
        tcp_fields(self.tcp, buf, tcp_offset(buf));
        http2_fields(self.http2, buf, payload_offset(buf));
        grpc_fields(self.grpc, buf, payload_offset(buf) + 9);
        let f = self.tcp.data_offset_reserved_flags;
        assert(f >> 12 == f / 0x1000) by (bit_vector);
    }
}

/// Parses and validates a gRPC packet: Ethernet, IPv4, TCP, an HTTP/2 DATA frame
/// and the gRPC message header in it.
pub fn parse_grpc_packet(buf: &[u8], target_port: u16) -> (r: Result<ParsedGrpc, ParseError>)
    ensures
        match r {
            Ok(parsed) => parse_error(buf@, target_port) is None && parsed.read_at(buf@),
            Err(e) => parse_error(buf@, target_port) == Some(e),
        },
{
    if buf.len() < 14 {
        return Err(ParseError::BufferTooSmall);
    }
    let eth = match EtherHdr::read_from(&buf[0..14]) {
        Some(h) => h,
        None => return Err(ParseError::BufferTooSmall),
    };
    proof {
        eth_fields(eth, buf@);
    }
    if eth.ether_type != 0x0800 {
        return Err(ParseError::NonIPv4);
    }

    if buf.len() < 34 {
        return Err(ParseError::BufferTooSmall);
    }
    let ip = match IpHdr::read_from(&buf[14..34]) {
        Some(h) => h,
        None => return Err(ParseError::BufferTooSmall),
    };
    proof {
        ip_fields(ip, buf@);
    }
    let ihl: usize = (ip.version_ihl & 0x0f) as usize;
    if ihl < 5 {
        return Err(ParseError::BadIpHdrLen);
    }
    let tcp_start: usize = 14 + ihl * 4;
    if buf.len() < tcp_start {
        return Err(ParseError::BufferTooSmall);
    }
    if ip.proto != 6 {
        return Err(ParseError::NonTCP);
    }
    proof {
        word_sum_bound(buf@.subrange(14, tcp_start as int));
    }
    if calculate_checksum(&buf[14..tcp_start]) != 0 {
        return Err(ParseError::BadIpChecksum);
    }

    if buf.len() < tcp_start + 20 {
        return Err(ParseError::BufferTooSmall);
    }
    let tcp = match TcpHdr::read_from(&buf[tcp_start..tcp_start + 20]) {
        Some(h) => h,
        None => return Err(ParseError::BufferTooSmall),
    };
    proof {
        tcp_fields(tcp, buf@, tcp_start as int);
    }
    if tcp.dst_port != target_port {
        return Err(ParseError::WrongPort);
    }
    let data_offset: usize = (tcp.data_offset_reserved_flags >> 12) as usize;
    if data_offset < 5 {
        return Err(ParseError::BadTcpHdrLen);
    }
    let payload: usize = tcp_start + data_offset * 4;

    if buf.len() < payload + 9 {
        return Err(ParseError::BufferTooSmall);
    }
    let http2 = match Http2Hdr::read_from(&buf[payload..payload + 9]) {
        Some(h) => h,
        None => return Err(ParseError::BadHttp2Hdr),
    };
    proof {
        http2_fields(http2, buf@, payload as int);
    }
    if http2.frame_type != 0 {
        return Err(ParseError::NonHttp2Data);
    }
    let frame_len: usize = http2.payload_len();
    if buf.len() < payload + 9 + frame_len {
        return Err(ParseError::PayloadOverflow);
    }

    if frame_len < 5 {
        return Err(ParseError::BadGrpcHdr);
    }
    let grpc = match GrpcHdr::read_from(&buf[payload + 9..payload + 14]) {
        Some(h) => h,
        None => return Err(ParseError::BadGrpcHdr),
    };
    proof {
        grpc_fields(grpc, buf@, payload as int + 9);
    }
    if (frame_len as u64) < 5 + grpc.message_len as u64 {
        return Err(ParseError::PayloadOverflow);
    }
    Ok(ParsedGrpc { eth, ip, tcp, http2, grpc })
}

/// The EtherType, read off the packet.
proof fn eth_fields(eth: EtherHdr, buf: Seq<u8>)
    requires
        buf.len() >= 14,
        eth.wire() == buf.subrange(0, 14),
    ensures
        eth.ether_type == endian::be16(buf.skip(12)),
{
    assert(buf.skip(12).take(2) =~= eth.wire().subrange(12, 14));
    assert(eth.wire().subrange(12, 14) =~= endian::u16_bytes(eth.ether_type));
    endian::u16_round_trip(eth.ether_type, buf.skip(12).take(2));
}

/// The header length and protocol, read off the packet.
proof fn ip_fields(ip: IpHdr, buf: Seq<u8>)
    requires
        buf.len() >= 34,
        ip.wire() == buf.subrange(14, 34),
    ensures
        ip.version_ihl == buf[14],
        ip.version_ihl & 0x0f == buf[14] % 16,
        ip.proto == buf[23],
{
    assert(ip.wire()[0] == buf[14]);
    assert(ip.wire()[9] == buf[23]);
    let v = ip.version_ihl;
    assert(v & 0x0f == v % 16) by (bit_vector);
}

/// The destination port and header length, read off the packet.
proof fn tcp_fields(tcp: TcpHdr, buf: Seq<u8>, at: int)
    requires
        0 <= at,
        at + 20 <= buf.len(),
        tcp.wire() == buf.subrange(at, at + 20),
    ensures
        tcp.dst_port == endian::be16(buf.skip(at + 2)),
        tcp.data_offset_reserved_flags >> 12 == buf[at + 12] / 16,
{
    assert(buf.skip(at + 2).take(2) =~= tcp.wire().subrange(2, 4));
    assert(tcp.wire().subrange(2, 4) =~= endian::u16_bytes(tcp.dst_port));
    endian::u16_round_trip(tcp.dst_port, buf.skip(at + 2).take(2));
    let flags = tcp.data_offset_reserved_flags;
    assert(tcp.wire()[12] == buf[at + 12]);
    assert(tcp.wire()[12] == endian::u16_bytes(flags)[0]);
    assert(flags >> 12 == flags / 0x1000) by (bit_vector);
    assert(flags / 0x1000 == flags / 0x100 / 16);
}

/// The frame type and length, read off the packet.
proof fn http2_fields(http2: Http2Hdr, buf: Seq<u8>, at: int)
    requires
        0 <= at,
        at + 9 <= buf.len(),
        http2.wire() == buf.subrange(at, at + 9),
    ensures
        http2.frame_type == buf[at + 3],
        endian::be24(http2.length@) == endian::be24(buf.skip(at)),
{
    assert(http2.wire()[0] == buf[at]);
    assert(http2.wire()[1] == buf[at + 1]);
    assert(http2.wire()[2] == buf[at + 2]);
    assert(http2.wire()[3] == buf[at + 3]);
}

/// The message length, read off the packet.
proof fn grpc_fields(grpc: GrpcHdr, buf: Seq<u8>, at: int)
    requires
        0 <= at,
        at + 5 <= buf.len(),
        grpc.wire() == buf.subrange(at, at + 5),
    ensures
        grpc.message_len == endian::be32(buf.skip(at + 1)),
{
    assert(buf.skip(at + 1).take(4) =~= grpc.wire().subrange(1, 5));
    assert(grpc.wire().subrange(1, 5) =~= endian::u32_bytes(grpc.message_len));
    endian::u32_round_trip(grpc.message_len, buf.skip(at + 1).take(4));
}

// ---------------------------------------------------------------------------
// Pseudorandom numbers
// ---------------------------------------------------------------------------

/// One step of the generator.
pub open spec fn xorshift_step(x: u32) -> u32 {
    let a = x ^ (x << 13u32);
    let b = a ^ (a >> 17u32);
    b ^ (b << 5u32)
}

/// A pseudorandom number generator without a state of zero.
#[derive(Debug)]
pub struct Xorshift {
    state: u32,
}

impl Xorshift {
    #[verifier::type_invariant]
    spec fn not_stuck(self) -> bool {
        self.state != 0
    }

    /// The last number given out, or the seed.
    pub closed spec fn state(self) -> u32 {
        self.state
    }

    /// A generator that starts from `seed`, or from one where that is zero.
    pub fn new(seed: u32) -> (rng: Self)
        ensures
            rng.state() == if seed == 0 {
                1
            } else {
                seed
            },
    {
        Xorshift {
            state: if seed == 0 {
                1
            } else {
                seed
            },
        }
    }

    /// The next number, which is never zero.
    pub fn next_u32(&mut self) -> (x: u32)
        ensures
            x == xorshift_step(old(self).state()),
            final(self).state() == x,
            x != 0,
    {
        proof {
            use_type_invariant(&*self);
            step_not_zero(self.state);
        }
        let mut x: u32 = self.state;
        x = x ^ (x << 13u32);
        x = x ^ (x >> 17u32);
        x = x ^ (x << 5u32);
        self.state = x;
        x
    }

    /// The next number, which is never zero.
    pub fn next(&mut self) -> (x: u32)
        ensures
            x == xorshift_step(old(self).state()),
            final(self).state() == x,
            x != 0,
    {
        self.next_u32()
    }
}

impl Xorshift {
    /// The numerator of the next fraction, over 2^24: the low 24 bits of the next
    /// number.
    pub fn next_fraction(&mut self) -> (n: u32)
        ensures
            n == xorshift_step(old(self).state()) % 0x100_0000,
            n < 0x100_0000,
            final(self).state() == xorshift_step(old(self).state()),
    {
        self.next_u32() % 0x100_0000
    }
}

/// A step never leads to zero, so the generator does not get stuck.
pub proof fn step_not_zero(x: u32)
    requires
        x != 0,
    ensures
        xorshift_step(x) != 0,
{
    let a = x ^ (x << 13u32);
    let b = a ^ (a >> 17u32);
    assert(x != 0 ==> x ^ (x << 13u32) != 0) by (bit_vector);
    assert(a != 0 ==> a ^ (a >> 17u32) != 0) by (bit_vector);
    assert(b != 0 ==> b ^ (b << 5u32) != 0) by (bit_vector);
}

/// Different states lead to different numbers.
pub proof fn step_is_injective(x: u32, y: u32)
    requires
        xorshift_step(x) == xorshift_step(y),
    ensures
        x == y,
{
    let a = x ^ (x << 13u32);
    let c = y ^ (y << 13u32);
    let b = a ^ (a >> 17u32);
    let d = c ^ (c >> 17u32);
    assert(b ^ (b << 5u32) == d ^ (d << 5u32) ==> b == d) by (bit_vector);
    assert(a ^ (a >> 17u32) == c ^ (c >> 17u32) ==> a == c) by (bit_vector);
    assert(x ^ (x << 13u32) == y ^ (y << 13u32) ==> x == y) by (bit_vector);
}

// ---------------------------------------------------------------------------
// Laws
// ---------------------------------------------------------------------------

/// `data` with its 16-bit word at `at` replaced.
pub open spec fn with_word(data: Seq<u8>, at: int, word: u16) -> Seq<u8> {
    data.update(at, endian::u16_bytes(word)[0]).update(at + 1, endian::u16_bytes(word)[1])
}

/// Replacing a word changes the sum by the difference.
pub proof fn word_sum_replaced(data: Seq<u8>, at: int, word: u16)
    requires
        0 <= at,
        at + 2 <= data.len(),
        at % 2 == 0,
    ensures
        word_sum(with_word(data, at, word)) == word_sum(data) - endian::be16(data.skip(at)) + word,
    decreases data.len(),
{
    let new = with_word(data, at, word);
    endian::u16_round_trip(word, new.subrange(at, at + 2));
    if at == 0 {
        assert(new.skip(2) =~= data.skip(2));
        assert(data.skip(0) =~= data);
    } else {
        word_sum_replaced(data.skip(2), at - 2, word);
        assert(new.skip(2) =~= with_word(data.skip(2), at - 2, word));
        assert(data.skip(2).skip(at - 2) =~= data.skip(at));
    }
}

/// Data in which the checksum of the rest replaces a zero word passes the check.
pub proof fn inserted_checksum_passes(data: Seq<u8>, at: int)
    requires
        0 <= at,
        at + 2 <= data.len(),
        at % 2 == 0,
        data[at] == 0,
        data[at + 1] == 0,
    ensures
        checksum(with_word(data, at, checksum(data) as u16)) == 0,
{
    let sum = word_sum(data);
    word_sum_bound(data);
    word_sum_replaced(data, at, checksum(data) as u16);
    let q = (sum - 1) / 0xffff;
    if sum > 0 {
        assert(sum - 1 == q * 0xffff + (sum - 1) % 0xffff);
        assert((q * 0xffff + 0xfffe) % 0xffff == 0xfffe) by (nonlinear_arith);
    }
}

/// Data that passes the check no longer does once one of its words is replaced by
/// another, except by 0xffff for 0 or the other way round.
pub proof fn replaced_word_is_detected(data: Seq<u8>, at: int, word: u16)
    requires
        0 <= at,
        at + 2 <= data.len(),
        at % 2 == 0,
        checksum(data) == 0,
        word != endian::be16(data.skip(at)),
        !(word == 0 && endian::be16(data.skip(at)) == 0xffff),
        !(word == 0xffff && endian::be16(data.skip(at)) == 0),
    ensures
        checksum(with_word(data, at, word)) != 0,
{
    word_sum_bound(data);
    word_sum_replaced(data, at, word);
    let sum = word_sum(data);
    let new = word_sum(with_word(data, at, word));
    let delta = word - endian::be16(data.skip(at));
    if checksum(with_word(data, at, word)) == 0 {
        let q = (sum - 1) / 0xffff;
        let p = (new - 1) / 0xffff;
        assert(sum == q * 0xffff + 0xffff);
        assert(new == p * 0xffff + 0xffff);
        assert(delta == (p - q) * 0xffff) by (nonlinear_arith)
            requires
                delta == new - sum,
                sum == q * 0xffff + 0xffff,
                new == p * 0xffff + 0xffff,
        ;
    }
}

/// A packet that parses holds all its headers and its whole gRPC message.
pub proof fn parsed_packet_is_complete(buf: Seq<u8>, target_port: u16)
    requires
        parse_error(buf, target_port) is None,
    ensures
        34 <= tcp_offset(buf),
        tcp_offset(buf) + 20 <= payload_offset(buf),
        0 <= grpc_message_len(buf),
        payload_offset(buf) + 14 + grpc_message_len(buf) <= payload_offset(buf) + 9
            + http2_payload_len(buf),
        payload_offset(buf) + 9 + http2_payload_len(buf) <= buf.len(),
{
}

/// `buf` starts with a packet to `port` whose IPv4 header has `ip_words` words of four
/// bytes, options among them, whose TCP header has `tcp_words`, and whose DATA frame
/// has `frame` bytes of payload, with a gRPC message of `message` bytes in them.
pub open spec fn laid_out(
    buf: Seq<u8>,
    port: u16,
    ip_words: int,
    tcp_words: int,
    frame: int,
    message: int,
) -> bool {
    let tcp = 14 + 4 * ip_words;
    let http2 = tcp + 4 * tcp_words;
    &&& 5 <= ip_words <= 15
    &&& 5 <= tcp_words <= 15
    &&& 0 <= message
    &&& 5 + message <= frame
    &&& http2 + 9 + frame <= buf.len()
    &&& buf[12] == 8
    &&& buf[13] == 0
    &&& buf[14] % 16 == ip_words
    &&& buf[23] == 6
    &&& checksum(buf.subrange(14, tcp)) == 0
    &&& buf[tcp + 2] * 256 + buf[tcp + 3] == port
    &&& buf[tcp + 12] / 16 == tcp_words
    &&& buf[http2] * 65536 + buf[http2 + 1] * 256 + buf[http2 + 2] == frame
    &&& buf[http2 + 3] == 0
    &&& buf[http2 + 10] * 16777216 + buf[http2 + 11] * 65536 + buf[http2 + 12] * 256 + buf[http2
        + 13] == message
}

/// A packet parses exactly where it is laid out as one, with headers of any length
/// that their fields can give; the message stands right behind the headers.
pub proof fn packets_that_parse(buf: Seq<u8>, port: u16)
    ensures
        parse_error(buf, port) is None <==> exists|i: int, t: int, f: int, m: int| #[trigger]
            laid_out(buf, port, i, t, f, m),
        forall|i: int, t: int, f: int, m: int| #[trigger]
            laid_out(buf, port, i, t, f, m) ==> {
                &&& tcp_offset(buf) == 14 + 4 * i
                &&& payload_offset(buf) == 14 + 4 * i + 4 * t
                &&& http2_payload_len(buf) == f
                &&& grpc_message_len(buf) == m
            },
{
    assert forall|i: int, t: int, f: int, m: int| #[trigger]
        laid_out(buf, port, i, t, f, m) implies tcp_offset(buf) == 14 + 4 * i && payload_offset(buf)
        == 14 + 4 * i + 4 * t && http2_payload_len(buf) == f && grpc_message_len(buf) == m
        && parse_error(buf, port) is None by {
        let http2 = 14 + 4 * i + 4 * t;
        assert(buf.skip(http2)[0] == buf[http2]);
        assert(buf.skip(http2)[1] == buf[http2 + 1]);
        assert(buf.skip(http2)[2] == buf[http2 + 2]);
        assert(buf.skip(http2 + 10)[0] == buf[http2 + 10]);
        assert(buf.skip(http2 + 10)[1] == buf[http2 + 11]);
        assert(buf.skip(http2 + 10)[2] == buf[http2 + 12]);
        assert(buf.skip(http2 + 10)[3] == buf[http2 + 13]);
    }
    if parse_error(buf, port) is None {
        let http2 = payload_offset(buf);
        assert(buf.skip(http2)[0] == buf[http2]);
        assert(buf.skip(http2)[1] == buf[http2 + 1]);
        assert(buf.skip(http2)[2] == buf[http2 + 2]);
        assert(buf.skip(http2 + 10)[0] == buf[http2 + 10]);
        assert(buf.skip(http2 + 10)[1] == buf[http2 + 11]);
        assert(buf.skip(http2 + 10)[2] == buf[http2 + 12]);
        assert(buf.skip(http2 + 10)[3] == buf[http2 + 13]);
        assert(laid_out(
            buf,
            port,
            buf[14] as int % 16,
            buf[tcp_offset(buf) + 12] as int / 16,
            http2_payload_len(buf),
            grpc_message_len(buf),
        ));
    }
}

/// A packet built from its layers parses: any two addresses, an IPv4 header of five to
/// fifteen words that holds its own checksum, a TCP header of five to fifteen words to
/// the port, and a DATA frame with a whole gRPC message. What follows in the frame and
/// behind it does not matter.
pub proof fn built_packet_parses(
    macs: Seq<u8>,
    ip: Seq<u8>,
    tcp: Seq<u8>,
    http2: Http2Hdr,
    grpc: GrpcHdr,
    message: Seq<u8>,
    rest: Seq<u8>,
    port: u16,
)
    requires
        macs.len() == 12,
        20 <= ip.len() <= 60,
        ip.len() == 4 * (ip[0] % 16),
        ip[9] == 6,
        checksum(ip) == 0,
        20 <= tcp.len() <= 60,
        tcp.len() == 4 * (tcp[12] / 16),
        endian::be16(tcp.skip(2)) == port,
        http2.frame_type == 0,
        5 + message.len() <= endian::be24(http2.length@) <= 5 + message.len() + rest.len(),
        grpc.message_len == message.len(),
    ensures
        ({
            let buf = macs + endian::u16_bytes(0x0800) + ip + tcp + http2.wire() + grpc.wire()
                + message + rest;
            let start = (14 + ip.len() + tcp.len() + 14) as int;
            &&& parse_error(buf, port) is None
            &&& payload_offset(buf) + 14 == start
            &&& grpc_message_len(buf) == message.len()
            &&& http2_payload_len(buf) == endian::be24(http2.length@)
            &&& buf.subrange(start, start + message.len()) == message
        }),
{
    let buf = macs + endian::u16_bytes(0x0800) + ip + tcp + http2.wire() + grpc.wire() + message
        + rest;
    let i = ip.len() as int / 4;
    let t = tcp.len() as int / 4;
    let at = (14 + ip.len() + tcp.len()) as int;
    let h = http2.wire();
    let g = grpc.wire();
    assert(h.len() == 9);
    assert(g.len() == 5);
    assert(buf[14] == ip[0]);
    assert(buf[23] == ip[9]);
    assert(buf.subrange(14, 14 + 4 * i) =~= ip);
    assert(buf[14 + 4 * i + 2] == tcp[2]);
    assert(buf[14 + 4 * i + 3] == tcp[3]);
    assert(buf[14 + 4 * i + 12] == tcp[12]);
    assert(buf[at] == h[0]);
    assert(buf[at + 1] == h[1]);
    assert(buf[at + 2] == h[2]);
    assert(buf[at + 3] == h[3]);
    assert(buf[at + 10] == g[1]);
    assert(buf[at + 11] == g[2]);
    assert(buf[at + 12] == g[3]);
    assert(buf[at + 13] == g[4]);
    endian::u32_round_trip(grpc.message_len, g.subrange(1, 5));
    assert(g.subrange(1, 5) =~= endian::u32_bytes(grpc.message_len));
    assert(laid_out(buf, port, i, t, endian::be24(http2.length@), message.len() as int));
    packets_that_parse(buf, port);
    assert(buf.subrange(at + 14, at + 14 + message.len()) =~= message);
}

/// A packet cut short is refused: as too small where a header is cut, as overflowing
/// where the frame is.
pub proof fn cut_packet_is_refused(
    buf: Seq<u8>,
    port: u16,
    i: int,
    t: int,
    f: int,
    m: int,
    n: int,
)
    requires
        laid_out(buf, port, i, t, f, m),
        0 <= n < 14 + 4 * i + 4 * t + 9 + f,
    ensures
        n < 14 + 4 * i + 4 * t + 9 ==> parse_error(buf.take(n), port) == Some(
            ParseError::BufferTooSmall,
        ),
        14 + 4 * i + 4 * t + 9 <= n ==> parse_error(buf.take(n), port) == Some(
            ParseError::PayloadOverflow,
        ),
{
    let cut = buf.take(n);
    let tcp = 14 + 4 * i;
    let http2 = tcp + 4 * t;
    if n >= 14 {
        assert(cut.skip(12)[0] == buf[12]);
        assert(cut.skip(12)[1] == buf[13]);
    }
    if n >= tcp {
        assert(cut.subrange(14, tcp) =~= buf.subrange(14, tcp));
    }
    if n >= tcp + 20 {
        assert(cut.skip(tcp + 2)[0] == buf[tcp + 2]);
        assert(cut.skip(tcp + 2)[1] == buf[tcp + 3]);
    }
    if n >= http2 + 9 {
        assert(cut.skip(http2)[0] == buf[http2]);
        assert(cut.skip(http2)[1] == buf[http2 + 1]);
        assert(cut.skip(http2)[2] == buf[http2 + 2]);
    }
}

/// A packet that parses no longer does once one part of it is spoiled, and the error
/// names that part.
pub proof fn spoiled_packet_is_refused(
    buf: Seq<u8>,
    port: u16,
    i: int,
    t: int,
    f: int,
    m: int,
    b: u8,
)
    requires
        laid_out(buf, port, i, t, f, m),
    ensures
        b != 8 ==> parse_error(buf.update(12, b), port) == Some(ParseError::NonIPv4),
        b != 0 ==> parse_error(buf.update(13, b), port) == Some(ParseError::NonIPv4),
        b % 16 < 5 ==> parse_error(buf.update(14, b), port) == Some(ParseError::BadIpHdrLen),
        b != 6 ==> parse_error(buf.update(23, b), port) == Some(ParseError::NonTCP),
        forall|at: int, word: u16|
            14 <= at < 14 + 4 * i && at % 2 == 0 && at != 14 && at != 22 && word
                != endian::be16(buf.skip(at)) && word != 0 && word != 0xffff
                ==> #[trigger] parse_error(with_word(buf, at, word), port) == Some(
                ParseError::BadIpChecksum,
            ),
        forall|other: u16|
            other != port ==> #[trigger] parse_error(buf, other) == Some(ParseError::WrongPort),
        b / 16 < 5 ==> parse_error(buf.update(14 + 4 * i + 12, b), port) == Some(
            ParseError::BadTcpHdrLen,
        ),
        b != 0 ==> parse_error(buf.update(14 + 4 * i + 4 * t + 3, b), port) == Some(
            ParseError::NonHttp2Data,
        ),
{
    let tcp = 14 + 4 * i;
    let http2 = tcp + 4 * t;
    let a12 = buf.update(12, b);
    let a13 = buf.update(13, b);
    let a14 = buf.update(14, b);
    let a23 = buf.update(23, b);
    assert(a12.skip(12)[0] == b && a12.skip(12)[1] == buf[13]);
    assert(a13.skip(12)[0] == buf[12] && a13.skip(12)[1] == b);
    assert(a14.skip(12)[0] == buf[12] && a14.skip(12)[1] == buf[13]);
    assert(a23.skip(12)[0] == buf[12] && a23.skip(12)[1] == buf[13]);
    assert forall|at: int, word: u16|
        14 <= at < 14 + 4 * i && at % 2 == 0 && at != 14 && at != 22 && word != endian::be16(
            buf.skip(at),
        ) && word != 0 && word != 0xffff implies #[trigger] parse_error(
        with_word(buf, at, word),
        port,
    ) == Some(ParseError::BadIpChecksum) by {
        let ip = buf.subrange(14, tcp);
        let new = with_word(buf, at, word);
        assert(ip.skip(at - 14)[0] == buf.skip(at)[0]);
        assert(ip.skip(at - 14)[1] == buf.skip(at)[1]);
        replaced_word_is_detected(ip, at - 14, word);
        assert(new.subrange(14, tcp) =~= with_word(ip, at - 14, word));
        assert(new.skip(12)[0] == buf[12] && new.skip(12)[1] == buf[13]);
    }
    let offset = buf.update(tcp + 12, b);
    assert(offset.skip(12)[0] == buf[12] && offset.skip(12)[1] == buf[13]);
    assert(offset.subrange(14, tcp) =~= buf.subrange(14, tcp));
    assert(offset.skip(tcp + 2)[0] == buf[tcp + 2] && offset.skip(tcp + 2)[1] == buf[tcp + 3]);
    let kind = buf.update(http2 + 3, b);
    assert(kind.skip(12)[0] == buf[12] && kind.skip(12)[1] == buf[13]);
    assert(kind.subrange(14, tcp) =~= buf.subrange(14, tcp));
    assert(kind.skip(tcp + 2)[0] == buf[tcp + 2] && kind.skip(tcp + 2)[1] == buf[tcp + 3]);
}

/// A frame with too little room is refused: for the gRPC header as a bad one, for the
/// message that the header announces as overflowing.
pub proof fn short_frame_is_refused(
    buf: Seq<u8>,
    port: u16,
    i: int,
    t: int,
    f: int,
    m: int,
    len: [u8; 3],
)
    requires
        laid_out(buf, port, i, t, f, m),
    ensures
        ({
            let at = 14 + 4 * i + 4 * t;
            let new = buf.update(at, len[0]).update(at + 1, len[1]).update(at + 2, len[2]);
            let frame = len[0] * 65536 + len[1] * 256 + len[2];
            &&& at + 9 + frame > buf.len() ==> parse_error(new, port) == Some(
                ParseError::PayloadOverflow,
            )
            &&& at + 9 + frame <= buf.len() && frame < 5 ==> parse_error(new, port) == Some(
                ParseError::BadGrpcHdr,
            )
            &&& at + 9 + frame <= buf.len() && 5 <= frame < 5 + m ==> parse_error(new, port)
                == Some(ParseError::PayloadOverflow)
            &&& at + 9 + frame <= buf.len() && 5 + m <= frame ==> laid_out(
                new,
                port,
                i,
                t,
                frame,
                m,
            )
        }),
{
    let tcp = 14 + 4 * i;
    let at = tcp + 4 * t;
    let new = buf.update(at, len[0]).update(at + 1, len[1]).update(at + 2, len[2]);
    assert(new.skip(12)[0] == buf[12] && new.skip(12)[1] == buf[13]);
    assert(new.subrange(14, tcp) =~= buf.subrange(14, tcp));
    assert(new.skip(tcp + 2)[0] == buf[tcp + 2] && new.skip(tcp + 2)[1] == buf[tcp + 3]);
    assert(new.skip(at)[0] == len[0] && new.skip(at)[1] == len[1] && new.skip(at)[2] == len[2]);
    if at + 14 <= buf.len() {
        let g = new.skip(at + 10);
        assert(g[0] == buf[at + 10] && g[1] == buf[at + 11] && g[2] == buf[at + 12] && g[3]
            == buf[at + 13]);
    }
}

/// The words of two pieces of data are those of both together, where the first piece
/// has no odd byte; an odd last byte counts as if a zero followed it.
pub proof fn word_sums_join(a: Seq<u8>, b: Seq<u8>)
    ensures
        a.len() % 2 == 0 ==> word_sum(a + b) == word_sum(a) + word_sum(b),
        a.len() % 2 == 1 ==> word_sum(a) == word_sum(a.push(0)),
    decreases a.len(),
{
    if a.len() == 0 {
        assert(a + b =~= b);
    } else if a.len() == 1 {
        assert(a.push(0).skip(2) =~= Seq::<u8>::empty());
        assert(word_sum(Seq::<u8>::empty()) == 0);
    } else {
        word_sums_join(a.skip(2), b);
        assert((a + b).skip(2) =~= a.skip(2) + b);
        assert(a.push(0).skip(2) =~= a.skip(2).push(0));
    }
}

/// A single word counts by its value, most significant byte first, and the checksum
/// is the complement of the one's complement sum: the two add up to a multiple of
/// 0xffff.
pub proof fn checksum_complements(data: Seq<u8>)
    ensures
        0 <= checksum(data) <= 0xffff,
        (checksum(data) + word_sum(data)) % 0xffff == 0,
        checksum(data) == 0xffff <==> word_sum(data) == 0,
        data.len() == 2 ==> word_sum(data) == data[0] * 256 + data[1],
{
    word_sum_bound(data);
    let sum = word_sum(data);
    if data.len() == 2 {
        assert(data.skip(2) =~= Seq::<u8>::empty());
        assert(word_sum(Seq::<u8>::empty()) == 0);
    }
    if sum > 0 {
        let q = (sum - 1) / 0xffff;
        assert(sum - 1 == q * 0xffff + (sum - 1) % 0xffff);
        assert(checksum(data) + sum == q * 0xffff + 0xffff);
        assert((q * 0xffff + 0xffff) % 0xffff == 0) by (nonlinear_arith);
    }
}

/// Where each field of an Ethernet header stands.
pub proof fn ethernet_layout(h: EtherHdr)
    ensures
        h.wire().len() == 14,
        h.wire().subrange(0, 6) == h.dst_mac@,
        h.wire().subrange(6, 12) == h.src_mac@,
        h.wire()[12] * 256 + h.wire()[13] == h.ether_type,
{
    assert(h.wire().subrange(0, 6) =~= h.dst_mac@);
    assert(h.wire().subrange(6, 12) =~= h.src_mac@);
}

/// Where each field of an IPv4 header stands.
pub proof fn ip_layout(h: IpHdr)
    ensures
        h.wire().len() == 20,
        h.wire()[0] == h.version_ihl,
        h.wire()[1] == h.tos,
        h.wire()[2] * 256 + h.wire()[3] == h.total_len,
        h.wire()[4] * 256 + h.wire()[5] == h.id,
        h.wire()[6] * 256 + h.wire()[7] == h.flags_fragment,
        h.wire()[8] == h.ttl,
        h.wire()[9] == h.proto,
        h.wire()[10] * 256 + h.wire()[11] == h.hdr_checksum,
        h.wire().subrange(12, 16) == h.src_ip@,
        h.wire().subrange(16, 20) == h.dst_ip@,
{
    assert(h.wire().subrange(12, 16) =~= h.src_ip@);
    assert(h.wire().subrange(16, 20) =~= h.dst_ip@);
}

/// Where each field of a TCP header stands.
pub proof fn tcp_layout(h: TcpHdr)
    ensures
        h.wire().len() == 20,
        h.wire()[0] * 256 + h.wire()[1] == h.src_port,
        h.wire()[2] * 256 + h.wire()[3] == h.dst_port,
        endian::be32(h.wire().skip(4)) == h.seq_num,
        endian::be32(h.wire().skip(8)) == h.ack_num,
        h.wire()[12] * 256 + h.wire()[13] == h.data_offset_reserved_flags,
        h.wire()[14] * 256 + h.wire()[15] == h.window_size,
        h.wire()[16] * 256 + h.wire()[17] == h.checksum,
        h.wire()[18] * 256 + h.wire()[19] == h.urgent_pointer,
{
    let w = h.wire();
    let ports = endian::u16_bytes(h.src_port) + endian::u16_bytes(h.dst_port);
    let numbers = endian::u32_bytes(h.seq_num) + endian::u32_bytes(h.ack_num);
    let last = endian::u16_bytes(h.data_offset_reserved_flags) + endian::u16_bytes(h.window_size)
        + endian::u16_bytes(h.checksum) + endian::u16_bytes(h.urgent_pointer);
    assert(w =~= ports + numbers + last);
    assert(w.skip(4).take(4) =~= endian::u32_bytes(h.seq_num));
    assert(w.skip(8).take(4) =~= endian::u32_bytes(h.ack_num));
    endian::u32_round_trip(h.seq_num, w.skip(4).take(4));
    endian::u32_round_trip(h.ack_num, w.skip(8).take(4));
    assert(forall|i: int| 0 <= i < 4 ==> w[i] == ports[i]);
    assert(forall|i: int| 12 <= i < 20 ==> w[i] == last[i - 12]);
    endian::u16_round_trip(h.src_port, ports.take(2));
    endian::u16_round_trip(h.dst_port, ports.skip(2));
}

/// Where each field of an HTTP/2 frame header and of a gRPC message header stands.
pub proof fn frame_layout(h: Http2Hdr, g: GrpcHdr)
    ensures
        h.wire().len() == 9,
        h.wire().subrange(0, 3) == h.length@,
        h.wire()[3] == h.frame_type,
        h.wire()[4] == h.flags,
        endian::be32(h.wire().skip(5)) == h.stream_id,
        g.wire().len() == 5,
        g.wire()[0] == g.compression_flag,
        endian::be32(g.wire().skip(1)) == g.message_len,
{
    assert(h.wire().subrange(0, 3) =~= h.length@);
    assert(h.wire().skip(5).take(4) =~= endian::u32_bytes(h.stream_id));
    endian::u32_round_trip(h.stream_id, h.wire().skip(5).take(4));
    assert(g.wire().skip(1).take(4) =~= endian::u32_bytes(g.message_len));
    endian::u32_round_trip(g.message_len, g.wire().skip(1).take(4));
}

/// A step in arithmetic: the number is mixed with itself times 2^13, then with a 2^17th of
/// itself, then with itself times 2^5, each cut to 32 bits.
pub proof fn step_in_arithmetic(x: u32, a: u32, b: u32)
    requires
        a == x ^ ((x as u64 * 8192) % 0x1_0000_0000) as u32,
        b == a ^ (a / 131072),
    ensures
        xorshift_step(x) == b ^ ((b as u64 * 32) % 0x1_0000_0000) as u32,
{
    assert(((x as u64 * 8192) % 0x1_0000_0000) as u32 == x << 13u32) by (bit_vector);
    assert(a / 131072 == a >> 17u32) by (bit_vector);
    assert(((b as u64 * 32) % 0x1_0000_0000) as u32 == b << 5u32) by (bit_vector);
}

} // verus!
