//! The benchmark: what traffic is made, what is counted, and what is reported.
use crate::grpc::ParseError;
use crate::metrics::bump_if;
use crate::packet_gen;
use crate::packet_gen::{generate_packet, PacketGenParams, TrafficProfile};
use crate::prometheus;
use crate::prometheus::{counter, counter_text, family_text, header_text, sample_text};
use crate::protobuf;
use crate::protobuf::{
    validate_grpc_protobuf_packet, ProtoError, ValidationConfig, ValidationError,
};
use crate::text;
use crate::text::decimal_text;
use rand::Rng;
use vstd::prelude::*;

verus! {

/// Packets by the protocols that they turned out to hold.
#[derive(Clone, Copy, Debug, PartialEq, Eq, Structural)]
pub struct ProtocolCounts {
    pub ipv4: u64,
    pub tcp: u64,
    pub http2: u64,
    pub grpc: u64,
    pub protobuf: u64,
}

impl Default for ProtocolCounts {
    fn default() -> (zero: Self)
        ensures
            zero == ProtocolCounts::zero(),
    {
        ProtocolCounts {
            ipv4: 0,
            tcp: 0,
            http2: 0,
            grpc: 0,
            protobuf: 0,
        }
    }
}

impl ProtocolCounts {
    /// All counters zero.
    pub open spec fn zero() -> ProtocolCounts {
        ProtocolCounts {
            ipv4: 0,
            tcp: 0,
            http2: 0,
            grpc: 0,
            protobuf: 0,
        }
    }
}

/// Packets that failed to parse, by reason.
#[derive(Clone, Copy, Debug, PartialEq, Eq, Structural)]
pub struct ParserFailures {
    pub too_small: u64,
    pub non_ipv4: u64,
    pub bad_ip_len: u64,
    pub non_tcp: u64,
    pub bad_ip_csum: u64,
    pub bad_tcp_len: u64,
    pub wrong_port: u64,
    pub bad_http2: u64,
    pub non_http2_data: u64,
    pub bad_grpc: u64,
    pub l4_overflow: u64,
}

impl Default for ParserFailures {
    fn default() -> (zero: Self)
        ensures
            zero == ParserFailures::zero(),
    {
        ParserFailures {
            too_small: 0,
            non_ipv4: 0,
            bad_ip_len: 0,
            non_tcp: 0,
            bad_ip_csum: 0,
            bad_tcp_len: 0,
            wrong_port: 0,
            bad_http2: 0,
            non_http2_data: 0,
            bad_grpc: 0,
            l4_overflow: 0,
        }
    }
}

impl ParserFailures {
    /// All counters zero.
    pub open spec fn zero() -> ParserFailures {
        ParserFailures {
            too_small: 0,
            non_ipv4: 0,
            bad_ip_len: 0,
            non_tcp: 0,
            bad_ip_csum: 0,
            bad_tcp_len: 0,
            wrong_port: 0,
            bad_http2: 0,
            non_http2_data: 0,
            bad_grpc: 0,
            l4_overflow: 0,
        }
    }
}

/// Payloads that are not right, by reason.
#[derive(Clone, Copy, Debug, PartialEq, Eq, Structural)]
pub struct Anomalies {
    pub invalid_varint: u64,
    pub invalid_wire_type: u64,
    pub recursion_limit: u64,
    pub buffer_underflow: u64,
    pub shape_dim_limit: u64,
    pub shape_val_invalid: u64,
    pub tensor_size_limit: u64,
    pub invalid_varint_bytes: u64,
}

impl Default for Anomalies {
    fn default() -> (zero: Self)
        ensures
            zero == Anomalies::zero(),
    {
        Anomalies {
            invalid_varint: 0,
            invalid_wire_type: 0,
            recursion_limit: 0,
            buffer_underflow: 0,
            shape_dim_limit: 0,
            shape_val_invalid: 0,
            tensor_size_limit: 0,
            invalid_varint_bytes: 0,
        }
    }
}

impl Anomalies {
    /// All counters zero.
    pub open spec fn zero() -> Anomalies {
        Anomalies {
            invalid_varint: 0,
            invalid_wire_type: 0,
            recursion_limit: 0,
            buffer_underflow: 0,
            shape_dim_limit: 0,
            shape_val_invalid: 0,
            tensor_size_limit: 0,
            invalid_varint_bytes: 0,
        }
    }
}

/// Packets by size.
#[derive(Clone, Copy, Debug, PartialEq, Eq, Structural)]
pub struct PayloadHistogram {
    pub range_0_64: u64,
    pub range_65_256: u64,
    pub range_257_1024: u64,
    pub range_1025_2048: u64,
}

impl Default for PayloadHistogram {
    fn default() -> (zero: Self)
        ensures
            zero == PayloadHistogram::zero(),
    {
        PayloadHistogram {
            range_0_64: 0,
            range_65_256: 0,
            range_257_1024: 0,
            range_1025_2048: 0,
        }
    }
}

impl PayloadHistogram {
    /// All counters zero.
    pub open spec fn zero() -> PayloadHistogram {
        PayloadHistogram {
            range_0_64: 0,
            range_65_256: 0,
            range_257_1024: 0,
            range_1025_2048: 0,
        }
    }
}

/// Everything that a processor reports of its packets.
#[derive(Clone, Copy, Debug, PartialEq, Eq, Structural)]
pub struct CustosMetrics {
    pub rx_packets: u64,
    pub tx_packets: u64,
    pub recycled_packets: u64,
    pub drop_validation_failed: u64,
    pub rx_bytes: u64,
    pub tx_bytes: u64,
    pub protocol_counts: ProtocolCounts,
    pub parser_failures: ParserFailures,
    pub anomalies: Anomalies,
    pub payload_size_histogram: PayloadHistogram,
}

impl Default for CustosMetrics {
    fn default() -> (zero: Self)
        ensures
            zero == CustosMetrics::zero(),
    {
        CustosMetrics {
            rx_packets: 0,
            tx_packets: 0,
            recycled_packets: 0,
            drop_validation_failed: 0,
            rx_bytes: 0,
            tx_bytes: 0,
            protocol_counts: ProtocolCounts::default(),
            parser_failures: ParserFailures::default(),
            anomalies: Anomalies::default(),
            payload_size_histogram: PayloadHistogram::default(),
        }
    }
}

impl CustosMetrics {
    /// All counters zero.
    pub open spec fn zero() -> CustosMetrics {
        CustosMetrics {
            rx_packets: 0,
            tx_packets: 0,
            recycled_packets: 0,
            drop_validation_failed: 0,
            rx_bytes: 0,
            tx_bytes: 0,
            protocol_counts: ProtocolCounts::zero(),
            parser_failures: ParserFailures::zero(),
            anomalies: Anomalies::zero(),
            payload_size_histogram: PayloadHistogram::zero(),
        }
    }
}

// ---------------------------------------------------------------------------
// Traffic
// ---------------------------------------------------------------------------

/// A mix of traffic.
#[derive(Clone, Copy, Debug, PartialEq, Eq, Structural)]
pub enum TestProfile {
    /// A low rate, and 95 of a hundred packets are valid.
    Light,
    /// A rate that leaps between a low and a very high one, and 20 of a hundred
    /// packets have flaws of many kinds.
    HeavyBurst,
    /// A steady high rate, and 10 of a hundred packets break a rule.
    Sustained,
}

/// Milliseconds of a time slot, over which the rate does not change.
pub const SLOT_MILLIS: u64 = 100;

/// Time slots after which the bursts come again.
pub const BURST_CYCLE: u64 = 49;

/// Time slots of each cycle with the high rate.
pub const BURST_SLOTS: u64 = 9;

impl TestProfile {
    /// Packets in a second, where no rate is asked for. Of a rate that leaps it is
    /// the mean.
    pub open spec fn default_rate(self) -> u64 {
        match self {
            TestProfile::Light => 10_000,
            TestProfile::HeavyBurst => 1_000_000,
            TestProfile::Sustained => 1_000_000,
        }
    }

    /// Number of workers that share the rate.
    pub open spec fn workers(self) -> u64 {
        match self {
            TestProfile::Light => 1,
            TestProfile::HeavyBurst => 4,
            TestProfile::Sustained => 2,
        }
    }

    /// Packets in a second over all workers.
    pub fn target_pps(&self, asked: Option<u64>) -> (rate: u64)
        ensures
            rate == match asked {
                Some(rate) => rate,
                None => self.default_rate(),
            },
    {
        match asked {
            Some(rate) => rate,
            None => match self {
                TestProfile::Light => 10_000,
                TestProfile::HeavyBurst => 1_000_000,
                TestProfile::Sustained => 1_000_000,
            },
        }
    }

    /// Packets in a second over all workers, in a time slot. A rate that is asked
    /// for is steady; without one the rate of the bursts leaps between 100 000 and
    /// 5 000 000.
    pub open spec fn rate_in_slot(self, asked: Option<u64>, slot: u64) -> u64 {
        match asked {
            Some(rate) => rate,
            None => match self {
                TestProfile::HeavyBurst => if slot % BURST_CYCLE < BURST_SLOTS {
                    5_000_000
                } else {
                    100_000
                },
                _ => self.default_rate(),
            },
        }
    }

    /// Packets in a second for each worker, in a time slot.
    pub fn slot_rate(&self, asked: Option<u64>, slot: u64) -> (rate: u64)
        ensures
            rate == self.rate_in_slot(asked, slot) / self.workers(),
    {
        let total: u64 = match asked {
            Some(rate) => rate,
            None => match self {
                TestProfile::Light => 10_000,
                TestProfile::HeavyBurst => if slot % BURST_CYCLE < BURST_SLOTS {
                    5_000_000
                } else {
                    100_000
                },
                TestProfile::Sustained => 1_000_000,
            },
        };
        total / self.num_workers() as u64
    }

    /// Number of workers that share the rate.
    pub fn num_workers(&self) -> (n: usize)
        ensures
            n == self.workers(),
    {
        match self {
            TestProfile::Light => 1,
            TestProfile::HeavyBurst => 4,
            TestProfile::Sustained => 2,
        }
    }

    /// Packets in a second for each worker.
    pub fn worker_rate(&self, asked: Option<u64>) -> (rate: u64)
        ensures
            rate == (match asked {
                Some(rate) => rate,
                None => self.default_rate(),
            }) / self.workers(),
    {
        self.target_pps(asked) / self.num_workers() as u64
    }

    /// The kind of packet that a worker validates in memory, for a roll from 0 to
    /// 99.
    pub open spec fn in_memory(self, roll: u32) -> TrafficProfile {
        match self {
            TestProfile::Light => if roll < 95 {
                TrafficProfile::ValidPacked
            } else {
                TrafficProfile::WrongPort
            },
            TestProfile::HeavyBurst => if roll < 80 {
                TrafficProfile::ValidPacked
            } else if roll < 83 {
                TrafficProfile::InvalidShapeValue
            } else if roll < 86 {
                TrafficProfile::ShapeDimLimitExceeded
            } else if roll < 89 {
                TrafficProfile::RecursionLimitExceeded
            } else if roll < 92 {
                TrafficProfile::InvalidVarint
            } else if roll < 94 {
                TrafficProfile::BadTcpChecksum
            } else if roll < 97 {
                TrafficProfile::BadHttp2
            } else {
                TrafficProfile::BadGrpc
            },
            TestProfile::Sustained => if roll < 90 {
                TrafficProfile::ValidUnpacked
            } else if roll < 93 {
                TrafficProfile::InvalidShapeValue
            } else if roll < 96 {
                TrafficProfile::ShapeDimLimitExceeded
            } else {
                TrafficProfile::RecursionLimitExceeded
            },
        }
    }

    /// The kind of packet that a worker sends through a socket.
    pub open spec fn on_wire(self, roll: u32) -> TrafficProfile {
        match self {
            TestProfile::Light => if roll < 95 {
                TrafficProfile::ValidPacked
            } else {
                TrafficProfile::WrongPort
            },
            TestProfile::HeavyBurst => if roll < 80 {
                TrafficProfile::ValidPacked
            } else {
                TrafficProfile::InvalidShapeValue
            },
            TestProfile::Sustained => if roll < 90 {
                TrafficProfile::ValidUnpacked
            } else {
                TrafficProfile::RecursionLimitExceeded
            },
        }
    }

    /// The kind of packet that goes into a capture file.
    pub open spec fn in_capture(self, roll: u32) -> TrafficProfile {
        match self {
            TestProfile::Light => if roll < 95 {
                TrafficProfile::ValidPacked
            } else {
                TrafficProfile::WrongPort
            },
            TestProfile::HeavyBurst => if roll < 80 {
                TrafficProfile::ValidPacked
            } else if roll < 85 {
                TrafficProfile::InvalidShapeValue
            } else if roll < 90 {
                TrafficProfile::RecursionLimitExceeded
            } else if roll < 95 {
                TrafficProfile::BadHttp2
            } else {
                TrafficProfile::BadTcpChecksum
            },
            TestProfile::Sustained => if roll < 90 {
                TrafficProfile::ValidUnpacked
            } else {
                TrafficProfile::ShapeDimLimitExceeded
            },
        }
    }

    /// The kind of packet that a worker validates in memory.
    pub fn choose_in_memory(&self, roll: u32) -> (kind: TrafficProfile)
        ensures
            kind == self.in_memory(roll),
    {
        match self {
            TestProfile::Light => if roll < 95 {
                TrafficProfile::ValidPacked
            } else {
                TrafficProfile::WrongPort
            },
            TestProfile::HeavyBurst => if roll < 80 {
                TrafficProfile::ValidPacked
            } else if roll < 83 {
                TrafficProfile::InvalidShapeValue
            } else if roll < 86 {
                TrafficProfile::ShapeDimLimitExceeded
            } else if roll < 89 {
                TrafficProfile::RecursionLimitExceeded
            } else if roll < 92 {
                TrafficProfile::InvalidVarint
            } else if roll < 94 {
                TrafficProfile::BadTcpChecksum
            } else if roll < 97 {
                TrafficProfile::BadHttp2
            } else {
                TrafficProfile::BadGrpc
            },
            TestProfile::Sustained => if roll < 90 {
                TrafficProfile::ValidUnpacked
            } else if roll < 93 {
                TrafficProfile::InvalidShapeValue
            } else if roll < 96 {
                TrafficProfile::ShapeDimLimitExceeded
            } else {
                TrafficProfile::RecursionLimitExceeded
            },
        }
    }

    /// The kind of packet that a worker sends through a socket.
    pub fn choose_on_wire(&self, roll: u32) -> (kind: TrafficProfile)
        ensures
            kind == self.on_wire(roll),
    {
        match self {
            TestProfile::Light => if roll < 95 {
                TrafficProfile::ValidPacked
            } else {
                TrafficProfile::WrongPort
            },
            TestProfile::HeavyBurst => if roll < 80 {
                TrafficProfile::ValidPacked
            } else {
                TrafficProfile::InvalidShapeValue
            },
            TestProfile::Sustained => if roll < 90 {
                TrafficProfile::ValidUnpacked
            } else {
                TrafficProfile::RecursionLimitExceeded
            },
        }
    }

    /// The kind of packet that goes into a capture file.
    pub fn choose_in_capture(&self, roll: u32) -> (kind: TrafficProfile)
        ensures
            kind == self.in_capture(roll),
    {
        match self {
            TestProfile::Light => if roll < 95 {
                TrafficProfile::ValidPacked
            } else {
                TrafficProfile::WrongPort
            },
            TestProfile::HeavyBurst => if roll < 80 {
                TrafficProfile::ValidPacked
            } else if roll < 85 {
                TrafficProfile::InvalidShapeValue
            } else if roll < 90 {
                TrafficProfile::RecursionLimitExceeded
            } else if roll < 95 {
                TrafficProfile::BadHttp2
            } else {
                TrafficProfile::BadTcpChecksum
            },
            TestProfile::Sustained => if roll < 90 {
                TrafficProfile::ValidUnpacked
            } else {
                TrafficProfile::ShapeDimLimitExceeded
            },
        }
    }
}

/// `rand`'s `thread_rng` and `Rng::gen_range` on a range from 0: some number below
/// `bound`. Which one depends on chance, so nothing more is said of it.
#[verifier::external_body]
fn roll_below(bound: u32) -> (roll: u32)
    requires
        bound > 0,
    ensures
        roll < bound,
{
    rand::thread_rng().gen_range(0..bound)
}

/// A number from 0 to 99, by chance.
pub(crate) fn roll_percent() -> (roll: u32)
    ensures
        roll < 100,
{
    roll_below(100)
}

/// The default parameters with another kind of packet.
pub open spec fn params_for(kind: TrafficProfile) -> PacketGenParams {
    PacketGenParams {
        dst_mac: [0xff, 0xff, 0xff, 0xff, 0xff, 0xff],
        src_mac: [0x02, 0x00, 0x00, 0x00, 0x00, 0x01],
        src_ip: [192, 168, 1, 2],
        dst_ip: [192, 168, 1, 1],
        src_port: 12345,
        dst_port: 50051,
        profile: kind,
    }
}

/// Makes a packet of the given kind with default addresses and ports.
pub fn packet_of(kind: TrafficProfile) -> (bytes: Vec<u8>)
    ensures
        bytes@ == packet_gen::packet(params_for(kind)),
        bytes@.len() == 68 + packet_gen::payload(kind).len(),
{
    let params = PacketGenParams {
        dst_mac: [0xff, 0xff, 0xff, 0xff, 0xff, 0xff],
        src_mac: [0x02, 0x00, 0x00, 0x00, 0x00, 0x01],
        src_ip: [192, 168, 1, 2],
        dst_ip: [192, 168, 1, 1],
        src_port: 12345,
        dst_port: 50051,
        profile: kind,
    };
    generate_packet(&params)
}

/// Makes the next packet that a worker sends through a socket.
pub fn next_wire_packet(profile: TestProfile) -> (bytes: Vec<u8>)
    ensures
        exists|roll: u32|
            roll < 100 && bytes@ == packet_gen::packet(
                params_for(#[trigger] profile.on_wire(roll)),
            ),
{
    let roll: u32 = roll_percent();
    packet_of(profile.choose_on_wire(roll))
}

/// Nanoseconds that a worker rests after a hundred packets that took `elapsed`
/// nanoseconds, to keep to its rate.
pub fn pause_nanos(elapsed: u64, rate: u64) -> (pause: u64)
    requires
        rate > 0,
    ensures
        pause == if elapsed < 100_000_000_000u64 / rate {
            100_000_000_000u64 / rate - elapsed
        } else {
            0
        },
        elapsed + pause >= 100_000_000_000u64 / rate,
        pause > 0 ==> elapsed + pause == 100_000_000_000u64 / rate,
{
    let target: u64 = 100_000_000_000 / rate;
    if elapsed < target {
        target - elapsed
    } else {
        0
    }
}

/// Nanoseconds between two packets that a worker sends through a socket.
pub fn packet_gap_nanos(rate: u64) -> (gap: u64)
    requires
        rate > 0,
    ensures
        gap == 1_000_000_000u64 / rate,
{
    1_000_000_000 / rate
}

/// Whether a session of `seconds` is over after `ticks` of half a second.
pub fn session_over(ticks: u64, seconds: u64) -> (over: bool)
    ensures
        over == (ticks >= 2 * seconds),
        over <==> 500 * ticks >= 1000 * seconds,
{
    ticks / 2 >= seconds
}

// ---------------------------------------------------------------------------
// Counting
// ---------------------------------------------------------------------------

/// The counters of the benchmark.
#[derive(Clone, Copy, Debug, PartialEq, Eq, Structural)]
pub struct BenchCounters {
    pub rx_packets: u64,
    pub tx_packets: u64,
    pub recycled_packets: u64,
    pub drop_validation_failed: u64,
    pub rx_bytes: u64,
    pub tx_bytes: u64,
    pub ipv4: u64,
    pub tcp: u64,
    pub http2: u64,
    pub grpc: u64,
    pub protobuf: u64,
    pub too_small: u64,
    pub non_ipv4: u64,
    pub bad_ip_len: u64,
    pub non_tcp: u64,
    pub bad_ip_csum: u64,
    pub bad_tcp_len: u64,
    pub wrong_port: u64,
    pub bad_http2: u64,
    pub non_http2_data: u64,
    pub bad_grpc: u64,
    pub l4_overflow: u64,
    pub invalid_varint: u64,
    pub invalid_wire_type: u64,
    pub recursion_limit: u64,
    pub buffer_underflow: u64,
    pub shape_dim_limit: u64,
    pub shape_val_invalid: u64,
    pub tensor_size_limit: u64,
    pub invalid_varint_bytes: u64,
}

impl BenchCounters {
    /// All counters zero.
    pub open spec fn zero() -> BenchCounters {
        BenchCounters {
            rx_packets: 0,
            tx_packets: 0,
            recycled_packets: 0,
            drop_validation_failed: 0,
            rx_bytes: 0,
            tx_bytes: 0,
            ipv4: 0,
            tcp: 0,
            http2: 0,
            grpc: 0,
            protobuf: 0,
            too_small: 0,
            non_ipv4: 0,
            bad_ip_len: 0,
            non_tcp: 0,
            bad_ip_csum: 0,
            bad_tcp_len: 0,
            wrong_port: 0,
            bad_http2: 0,
            non_http2_data: 0,
            bad_grpc: 0,
            l4_overflow: 0,
            invalid_varint: 0,
            invalid_wire_type: 0,
            recursion_limit: 0,
            buffer_underflow: 0,
            shape_dim_limit: 0,
            shape_val_invalid: 0,
            tensor_size_limit: 0,
            invalid_varint_bytes: 0,
        }
    }

    /// All counters zero.
    pub fn new() -> (counters: Self)
        ensures
            counters == BenchCounters::zero(),
    {
        BenchCounters {
            rx_packets: 0,
            tx_packets: 0,
            recycled_packets: 0,
            drop_validation_failed: 0,
            rx_bytes: 0,
            tx_bytes: 0,
            ipv4: 0,
            tcp: 0,
            http2: 0,
            grpc: 0,
            protobuf: 0,
            too_small: 0,
            non_ipv4: 0,
            bad_ip_len: 0,
            non_tcp: 0,
            bad_ip_csum: 0,
            bad_tcp_len: 0,
            wrong_port: 0,
            bad_http2: 0,
            non_http2_data: 0,
            bad_grpc: 0,
            l4_overflow: 0,
            invalid_varint: 0,
            invalid_wire_type: 0,
            recursion_limit: 0,
            buffer_underflow: 0,
            shape_dim_limit: 0,
            shape_val_invalid: 0,
            tensor_size_limit: 0,
            invalid_varint_bytes: 0,
        }
    }

    /// The counters in the form in which they are reported. Sizes are not counted
    /// here.
    pub open spec fn reported(self) -> CustosMetrics {
        CustosMetrics {
            rx_packets: self.rx_packets,
            tx_packets: self.tx_packets,
            recycled_packets: self.recycled_packets,
            drop_validation_failed: self.drop_validation_failed,
            rx_bytes: self.rx_bytes,
            tx_bytes: self.tx_bytes,
            protocol_counts: ProtocolCounts {
                ipv4: self.ipv4,
                tcp: self.tcp,
                http2: self.http2,
                grpc: self.grpc,
                protobuf: self.protobuf,
            },
            parser_failures: ParserFailures {
                too_small: self.too_small,
                non_ipv4: self.non_ipv4,
                bad_ip_len: self.bad_ip_len,
                non_tcp: self.non_tcp,
                bad_ip_csum: self.bad_ip_csum,
                bad_tcp_len: self.bad_tcp_len,
                wrong_port: self.wrong_port,
                bad_http2: self.bad_http2,
                non_http2_data: self.non_http2_data,
                bad_grpc: self.bad_grpc,
                l4_overflow: self.l4_overflow,
            },
            anomalies: Anomalies {
                invalid_varint: self.invalid_varint,
                invalid_wire_type: self.invalid_wire_type,
                recursion_limit: self.recursion_limit,
                buffer_underflow: self.buffer_underflow,
                shape_dim_limit: self.shape_dim_limit,
                shape_val_invalid: self.shape_val_invalid,
                tensor_size_limit: self.tensor_size_limit,
                invalid_varint_bytes: self.invalid_varint_bytes,
            },
            payload_size_histogram: PayloadHistogram::zero(),
        }
    }

    /// The counters in the form in which they are reported.
    pub fn snapshot(&self) -> (metrics: CustosMetrics)
        ensures
            metrics == self.reported(),
    {
        CustosMetrics {
            rx_packets: self.rx_packets,
            tx_packets: self.tx_packets,
            recycled_packets: self.recycled_packets,
            drop_validation_failed: self.drop_validation_failed,
            rx_bytes: self.rx_bytes,
            tx_bytes: self.tx_bytes,
            protocol_counts: ProtocolCounts {
                ipv4: self.ipv4,
                tcp: self.tcp,
                http2: self.http2,
                grpc: self.grpc,
                protobuf: self.protobuf,
            },
            parser_failures: ParserFailures {
                too_small: self.too_small,
                non_ipv4: self.non_ipv4,
                bad_ip_len: self.bad_ip_len,
                non_tcp: self.non_tcp,
                bad_ip_csum: self.bad_ip_csum,
                bad_tcp_len: self.bad_tcp_len,
                wrong_port: self.wrong_port,
                bad_http2: self.bad_http2,
                non_http2_data: self.non_http2_data,
                bad_grpc: self.bad_grpc,
                l4_overflow: self.l4_overflow,
            },
            anomalies: Anomalies {
                invalid_varint: self.invalid_varint,
                invalid_wire_type: self.invalid_wire_type,
                recursion_limit: self.recursion_limit,
                buffer_underflow: self.buffer_underflow,
                shape_dim_limit: self.shape_dim_limit,
                shape_val_invalid: self.shape_val_invalid,
                tensor_size_limit: self.tensor_size_limit,
                invalid_varint_bytes: self.invalid_varint_bytes,
            },
            payload_size_histogram: PayloadHistogram::default(),
        }
    }

    /// The counters after a packet of `len` bytes was validated with this outcome.
    /// A packet that failed counts at no layer.
    pub open spec fn with_packet(self, len: int, outcome: Result<(), ValidationError>) -> Self {
        let ok = outcome is Ok;
        let parse = |e: ParseError| outcome == Err::<(), _>(ValidationError::Parse(e));
        let proto = |e: ProtoError| outcome == Err::<(), _>(ValidationError::Proto(e));
        BenchCounters {
            rx_packets: self.rx_packets.wrapping_add(1),
            rx_bytes: self.rx_bytes.wrapping_add(len as u64),
            tx_packets: bump_if(self.tx_packets, ok),
            tx_bytes: if ok {
                self.tx_bytes.wrapping_add(len as u64)
            } else {
                self.tx_bytes
            },
            recycled_packets: bump_if(self.recycled_packets, ok),
            drop_validation_failed: bump_if(self.drop_validation_failed, !ok),
            ipv4: bump_if(self.ipv4, ok),
            tcp: bump_if(self.tcp, ok),
            http2: bump_if(self.http2, ok),
            grpc: bump_if(self.grpc, ok),
            protobuf: bump_if(self.protobuf, ok),
            too_small: bump_if(self.too_small, parse(ParseError::BufferTooSmall)),
            non_ipv4: bump_if(self.non_ipv4, parse(ParseError::NonIPv4)),
            bad_ip_len: bump_if(self.bad_ip_len, parse(ParseError::BadIpHdrLen)),
            non_tcp: bump_if(self.non_tcp, parse(ParseError::NonTCP)),
            bad_ip_csum: bump_if(self.bad_ip_csum, parse(ParseError::BadIpChecksum)),
            bad_tcp_len: bump_if(self.bad_tcp_len, parse(ParseError::BadTcpHdrLen)),
            wrong_port: bump_if(self.wrong_port, parse(ParseError::WrongPort)),
            bad_http2: bump_if(self.bad_http2, parse(ParseError::BadHttp2Hdr)),
            non_http2_data: bump_if(self.non_http2_data, parse(ParseError::NonHttp2Data)),
            bad_grpc: bump_if(self.bad_grpc, parse(ParseError::BadGrpcHdr)),
            l4_overflow: bump_if(self.l4_overflow, parse(ParseError::PayloadOverflow)),
            invalid_varint: bump_if(self.invalid_varint, proto(ProtoError::InvalidVarint)),
            invalid_wire_type: bump_if(self.invalid_wire_type, proto(ProtoError::InvalidWireType)),
            recursion_limit: bump_if(self.recursion_limit, proto(ProtoError::RecursionLimit)),
            buffer_underflow: bump_if(self.buffer_underflow, proto(ProtoError::BufferUnderflow)),
            shape_dim_limit: bump_if(self.shape_dim_limit, proto(ProtoError::ShapeDimensionLimit)),
            shape_val_invalid: bump_if(
                self.shape_val_invalid,
                proto(ProtoError::ShapeValueInvalid),
            ),
            tensor_size_limit: bump_if(self.tensor_size_limit, proto(ProtoError::TensorSizeLimit)),
            invalid_varint_bytes: bump_if(
                self.invalid_varint_bytes,
                proto(ProtoError::InvalidVarintBytes),
            ),
        }
    }

    /// Counts a packet that was validated.
    pub fn record(&mut self, len: usize, outcome: Result<(), ValidationError>)
        ensures
            *final(self) == old(self).with_packet(len as int, outcome),
    {
        self.rx_packets = self.rx_packets.wrapping_add(1);
        self.rx_bytes = self.rx_bytes.wrapping_add(len as u64);
        match outcome {
            Ok(_) => {
                self.tx_packets = self.tx_packets.wrapping_add(1);
                self.tx_bytes = self.tx_bytes.wrapping_add(len as u64);
                self.recycled_packets = self.recycled_packets.wrapping_add(1);
                self.ipv4 = self.ipv4.wrapping_add(1);
                self.tcp = self.tcp.wrapping_add(1);
                self.http2 = self.http2.wrapping_add(1);
                self.grpc = self.grpc.wrapping_add(1);
                self.protobuf = self.protobuf.wrapping_add(1);
            },
            Err(ValidationError::Parse(e)) => {
                self.drop_validation_failed = self.drop_validation_failed.wrapping_add(1);
                match e {
                    ParseError::BufferTooSmall => self.too_small = self.too_small.wrapping_add(1),
                    ParseError::NonIPv4 => self.non_ipv4 = self.non_ipv4.wrapping_add(1),
                    ParseError::BadIpHdrLen => self.bad_ip_len = self.bad_ip_len.wrapping_add(1),
                    ParseError::NonTCP => self.non_tcp = self.non_tcp.wrapping_add(1),
                    ParseError::BadIpChecksum => {
                        self.bad_ip_csum = self.bad_ip_csum.wrapping_add(1);
                    },
                    ParseError::BadTcpHdrLen => self.bad_tcp_len = self.bad_tcp_len.wrapping_add(1),
                    ParseError::WrongPort => self.wrong_port = self.wrong_port.wrapping_add(1),
                    ParseError::BadHttp2Hdr => self.bad_http2 = self.bad_http2.wrapping_add(1),
                    ParseError::NonHttp2Data => {
                        self.non_http2_data = self.non_http2_data.wrapping_add(1);
                    },
                    ParseError::BadGrpcHdr => self.bad_grpc = self.bad_grpc.wrapping_add(1),
                    ParseError::PayloadOverflow => {
                        self.l4_overflow = self.l4_overflow.wrapping_add(1);
                    },
                }
            },
            Err(ValidationError::Proto(e)) => {
                self.drop_validation_failed = self.drop_validation_failed.wrapping_add(1);
                match e {
                    ProtoError::InvalidVarint => {
                        self.invalid_varint = self.invalid_varint.wrapping_add(1);
                    },
                    ProtoError::InvalidWireType => {
                        self.invalid_wire_type = self.invalid_wire_type.wrapping_add(1);
                    },
                    ProtoError::RecursionLimit => {
                        self.recursion_limit = self.recursion_limit.wrapping_add(1);
                    },
                    ProtoError::BufferUnderflow => {
                        self.buffer_underflow = self.buffer_underflow.wrapping_add(1);
                    },
                    ProtoError::ShapeDimensionLimit => {
                        self.shape_dim_limit = self.shape_dim_limit.wrapping_add(1);
                    },
                    ProtoError::ShapeValueInvalid => {
                        self.shape_val_invalid = self.shape_val_invalid.wrapping_add(1);
                    },
                    ProtoError::TensorSizeLimit => {
                        self.tensor_size_limit = self.tensor_size_limit.wrapping_add(1);
                    },
                    ProtoError::InvalidVarintBytes => {
                        self.invalid_varint_bytes = self.invalid_varint_bytes.wrapping_add(1);
                    },
                }
            },
        }
    }

    /// The counters after a packet of `len` bytes went out through a socket.
    pub open spec fn with_sent(self, len: int) -> Self {
        BenchCounters {
            tx_packets: self.tx_packets.wrapping_add(1),
            tx_bytes: self.tx_bytes.wrapping_add(len as u64),
            ..self
        }
    }

    /// Counts a packet that went out through a socket.
    pub fn record_sent(&mut self, len: usize)
        ensures
            *final(self) == old(self).with_sent(len as int),
    {
        self.tx_packets = self.tx_packets.wrapping_add(1);
        self.tx_bytes = self.tx_bytes.wrapping_add(len as u64);
    }
}

/// The outcome of validating a packet, without the shape.
pub open spec fn outcome_of(packet: Seq<u8>, config: ValidationConfig) -> Result<
    (),
    ValidationError,
> {
    match protobuf::validation_error(packet, config) {
        None => Ok(()),
        Some(e) => Err(e),
    }
}

/// Validates a packet in memory.
pub fn run_in_memory_validation(packet: &[u8], config: &ValidationConfig) -> (r: Result<
    ([i64; 16], usize),
    ValidationError,
>)
    ensures
        match r {
            Ok((shape, shape_len)) => {
                &&& protobuf::validation_error(packet@, *config) is None
                &&& shape@ == protobuf::payload_walk(packet@, *config).1.shape
                &&& shape_len == protobuf::payload_walk(packet@, *config).1.shape_len
            },
            Err(e) => protobuf::validation_error(packet@, *config) == Some(e),
        },
{
    validate_grpc_protobuf_packet(packet, config)
}

/// Makes a packet of the given kind, validates it and counts the outcome.
pub fn run_packet(counters: &mut BenchCounters, config: &ValidationConfig, kind: TrafficProfile)
    ensures
        *final(counters) == old(counters).with_packet(
            packet_gen::packet(params_for(kind)).len() as int,
            outcome_of(packet_gen::packet(params_for(kind)), *config),
        ),
{
    let packet: Vec<u8> = packet_of(kind);
    let outcome: Result<(), ValidationError> = match run_in_memory_validation(
        packet.as_slice(),
        config,
    ) {
        Ok(_) => Ok(()),
        Err(e) => Err(e),
    };
    counters.record(packet.len(), outcome);
}

/// One turn of a worker that validates in memory: makes a packet of a kind that
/// chance picks, validates it and counts the outcome.
pub fn run_worker_turn(
    counters: &mut BenchCounters,
    config: &ValidationConfig,
    profile: TestProfile,
)
    ensures
        exists|roll: u32|
            roll < 100 && *final(counters) == old(counters).with_packet(
                packet_gen::packet(params_for(#[trigger] profile.in_memory(roll))).len() as int,
                outcome_of(packet_gen::packet(params_for(profile.in_memory(roll))), *config),
            ),
{
    let roll: u32 = roll_percent();
    run_packet(counters, config, profile.choose_in_memory(roll));
}

/// How far the counters have moved between two reports.
#[derive(Clone, Copy, Debug, PartialEq, Eq, Structural)]
pub struct CountDeltas {
    pub rx_packets: u64,
    pub tx_packets: u64,
    pub dropped: u64,
    pub rx_bytes: u64,
    pub tx_bytes: u64,
}

/// How far a counter has moved; nothing where it fell.
pub open spec fn moved(now: u64, last: u64) -> u64 {
    if now >= last {
        (now - last) as u64
    } else {
        0
    }
}

/// How far the counters have moved between two reports.
pub fn count_deltas(now: &CustosMetrics, last: &CustosMetrics) -> (d: CountDeltas)
    ensures
        d.rx_packets == moved(now.rx_packets, last.rx_packets),
        d.tx_packets == moved(now.tx_packets, last.tx_packets),
        d.dropped == moved(now.drop_validation_failed, last.drop_validation_failed),
        d.rx_bytes == moved(now.rx_bytes, last.rx_bytes),
        d.tx_bytes == moved(now.tx_bytes, last.tx_bytes),
{
    CountDeltas {
        rx_packets: now.rx_packets.saturating_sub(last.rx_packets),
        tx_packets: now.tx_packets.saturating_sub(last.tx_packets),
        dropped: now.drop_validation_failed.saturating_sub(last.drop_validation_failed),
        rx_bytes: now.rx_bytes.saturating_sub(last.rx_bytes),
        tx_bytes: now.tx_bytes.saturating_sub(last.tx_bytes),
    }
}

// ---------------------------------------------------------------------------
// Reporting
// ---------------------------------------------------------------------------

/// The last measurements of three figures, the oldest first.
#[derive(Debug)]
pub struct PerformanceHistory<T> {
    pub rx_pps: Vec<T>,
    pub rx_gbps: Vec<T>,
    pub drop_pps: Vec<T>,
    pub capacity: usize,
}

/// A list of at most `capacity` entries, after one more was added.
pub open spec fn slid<T>(list: Seq<T>, capacity: int, x: T) -> Seq<T> {
    if list.len() >= capacity {
        list.skip(1).push(x)
    } else {
        list.push(x)
    }
}

impl<T: Copy> PerformanceHistory<T> {
    /// The three lists are equally long.
    pub open spec fn wf(self) -> bool {
        &&& self.rx_gbps@.len() == self.rx_pps@.len()
        &&& self.drop_pps@.len() == self.rx_pps@.len()
    }

    /// A history filled with `zero`.
    pub fn new(capacity: usize, zero: T) -> (history: Self)
        ensures
            history.wf(),
            history.capacity == capacity,
            history.rx_pps@ == Seq::new(capacity as nat, |i: int| zero),
            history.rx_gbps@ == Seq::new(capacity as nat, |i: int| zero),
            history.drop_pps@ == Seq::new(capacity as nat, |i: int| zero),
    {
        PerformanceHistory {
            rx_pps: filled(capacity, zero),
            rx_gbps: filled(capacity, zero),
            drop_pps: filled(capacity, zero),
            capacity,
        }
    }

    /// Adds a measurement; the oldest leaves a full history.
    pub fn push(&mut self, rx_pps: T, rx_gbps: T, drop_pps: T)
        requires
            old(self).wf(),
            old(self).capacity > 0 || old(self).rx_pps@.len() > 0,
        ensures
            final(self).wf(),
            final(self).capacity == old(self).capacity,
            final(self).rx_pps@ == slid(old(self).rx_pps@, old(self).capacity as int, rx_pps),
            final(self).rx_gbps@ == slid(old(self).rx_gbps@, old(self).capacity as int, rx_gbps),
            final(self).drop_pps@ == slid(
                old(self).drop_pps@,
                old(self).capacity as int,
                drop_pps,
            ),
    {
        if self.rx_pps.len() >= self.capacity {
            self.rx_pps.remove(0);
            self.rx_gbps.remove(0);
            self.drop_pps.remove(0);
        }
        self.rx_pps.push(rx_pps);
        self.rx_gbps.push(rx_gbps);
        self.drop_pps.push(drop_pps);
        proof {
            assert(self.rx_pps@ =~= slid(old(self).rx_pps@, old(self).capacity as int, rx_pps));
            assert(self.rx_gbps@ =~= slid(old(self).rx_gbps@, old(self).capacity as int, rx_gbps));
            assert(self.drop_pps@ =~= slid(
                old(self).drop_pps@,
                old(self).capacity as int,
                drop_pps,
            ));
        }
    }
}

/// A list of equal entries.
fn filled<T: Copy>(n: usize, x: T) -> (list: Vec<T>)
    ensures
        list@ == Seq::new(n as nat, |i: int| x),
{
    let mut list: Vec<T> = Vec::new();
    let mut i: usize = 0;
    while i < n
        invariant
            i <= n,
            list@ == Seq::new(i as nat, |j: int| x),
        decreases n - i,
    {
        list.push(x);
        i = i + 1;
        assert(list@ =~= Seq::new(i as nat, |j: int| x));
    }
    list
}

/// The report of the benchmark as Prometheus text, with the two rates already
/// rendered.
pub open spec fn bench_exposition(
    m: CustosMetrics,
    rx_pps: Seq<char>,
    rx_gbps: Seq<char>,
) -> Seq<char> {
    counter(
        "custos_rx_packets"@,
        "Total number of packets received by the interface"@,
        m.rx_packets,
    ) + counter(
        "custos_tx_packets"@,
        "Total number of packets processed and forwarded"@,
        m.tx_packets,
    ) + counter(
        "custos_validation_drops"@,
        "Total validation security drops"@,
        m.drop_validation_failed,
    ) + prometheus::family("custos_rx_pps"@, "Current packets per second rate"@, "gauge"@, rx_pps)
        + prometheus::family(
        "custos_rx_gbps"@,
        "Current line throughput in Gbps"@,
        "gauge"@,
        rx_gbps,
    ) + prometheus::header(
        "custos_protobuf_matches"@,
        "Successful protobuf shape validations"@,
        "counter"@,
    ) + prometheus::sample(
        "custos_protobuf_matches"@,
        text::decimal(m.protocol_counts.protobuf as nat),
    )
}

/// Renders the report of the benchmark as Prometheus text.
pub fn render_bench_metrics(m: &CustosMetrics, rx_pps: &str, rx_gbps: &str) -> (s: String)
    ensures
        s@ == bench_exposition(*m, rx_pps@, rx_gbps@),
{
    let mut s: String = counter_text(
        "custos_rx_packets",
        "Total number of packets received by the interface",
        m.rx_packets,
    );
    s.append(
        counter_text(
            "custos_tx_packets",
            "Total number of packets processed and forwarded",
            m.tx_packets,
        ).as_str(),
    );
    s.append(
        counter_text(
            "custos_validation_drops",
            "Total validation security drops",
            m.drop_validation_failed,
        ).as_str(),
    );
    s.append(
        family_text("custos_rx_pps", "Current packets per second rate", "gauge", rx_pps).as_str(),
    );
    s.append(
        family_text("custos_rx_gbps", "Current line throughput in Gbps", "gauge", rx_gbps).as_str(),
    );
    s.append(
        header_text(
            "custos_protobuf_matches",
            "Successful protobuf shape validations",
            "counter",
        ).as_str(),
    );
    s.append(
        sample_text(
            "custos_protobuf_matches",
            decimal_text(m.protocol_counts.protobuf).as_str(),
        ).as_str(),
    );
    s
}

// ---------------------------------------------------------------------------
// Laws
// ---------------------------------------------------------------------------

/// A kind of packet that has nothing wrong with it.
pub open spec fn is_sound(kind: TrafficProfile) -> bool {
    kind is ValidPacked || kind is ValidUnpacked
}

/// How many of a hundred packets of a mix have nothing wrong with them.
pub open spec fn sound_share(profile: TestProfile) -> u32 {
    match profile {
        TestProfile::Light => 95,
        TestProfile::HeavyBurst => 80,
        TestProfile::Sustained => 90,
    }
}

/// In memory, through a socket and in a capture, a mix has the same share of
/// packets with nothing wrong with them.
pub proof fn mixes_keep_their_share(profile: TestProfile, roll: u32)
    ensures
        is_sound(profile.in_memory(roll)) <==> roll < sound_share(profile),
        is_sound(profile.on_wire(roll)) <==> roll < sound_share(profile),
        is_sound(profile.in_capture(roll)) <==> roll < sound_share(profile),
{
}

/// Sum of the rates in `n` time slots from `slot` on, where no rate is asked for.
pub open spec fn rates_sum(profile: TestProfile, slot: u64, n: nat) -> int
    decreases n,
{
    if n == 0 {
        0
    } else {
        rates_sum(profile, slot, (n - 1) as nat) + profile.rate_in_slot(
            None,
            (slot + n - 1) as u64,
        )
    }
}

/// Over a cycle of time slots every mix keeps to its rate, also the one whose rate
/// leaps.
pub proof fn mean_rate_is_the_target(profile: TestProfile, cycle: u64)
    requires
        cycle * BURST_CYCLE + BURST_CYCLE <= u64::MAX,
    ensures
        rates_sum(profile, (cycle * BURST_CYCLE) as u64, BURST_CYCLE as nat) == BURST_CYCLE
            * profile.default_rate(),
{
    rates_sum_in_cycle(profile, cycle, BURST_CYCLE as nat);
}

proof fn rates_sum_in_cycle(profile: TestProfile, cycle: u64, n: nat)
    requires
        cycle * BURST_CYCLE + BURST_CYCLE <= u64::MAX,
        n <= BURST_CYCLE,
    ensures
        rates_sum(profile, (cycle * BURST_CYCLE) as u64, n) == if profile is HeavyBurst {
            if n <= BURST_SLOTS {
                n as int * 5_000_000
            } else {
                BURST_SLOTS * 5_000_000 + (n - BURST_SLOTS) * 100_000
            }
        } else {
            n as int * profile.default_rate()
        },
    decreases n,
{
    if n > 0 {
        rates_sum_in_cycle(profile, cycle, (n - 1) as nat);
        let last = n - 1;
        assert((cycle * 49 + last) % 49 == last) by (nonlinear_arith)
            requires
                0 <= last < 49,
                cycle >= 0,
        ;
        assert(n * profile.default_rate() == (n - 1) * profile.default_rate()
            + profile.default_rate()) by (nonlinear_arith);
    }
}

/// A full history stays full: adding a measurement changes no length, puts the
/// new one last and moves the others up by one.
pub proof fn full_history_slides<T>(list: Seq<T>, capacity: int, x: T)
    requires
        list.len() == capacity,
        capacity > 0,
    ensures
        slid(list, capacity, x).len() == capacity,
        slid(list, capacity, x).last() == x,
        forall|i: int| 0 <= i < capacity - 1 ==> slid(list, capacity, x)[i] == list[i + 1],
{
}

/// Under settings that reveal flaws, a packet that was made counts as sent exactly
/// where its kind has no flaw, and as dropped exactly where it has one.
pub proof fn made_packet_counts(c: BenchCounters, kind: TrafficProfile, config: ValidationConfig)
    requires
        packet_gen::reveals_flaws(config),
        config.target_port == 50051,
    ensures
        ({
            let after = c.with_packet(
                packet_gen::packet(params_for(kind)).len() as int,
                outcome_of(packet_gen::packet(params_for(kind)), config),
            );
            &&& after.rx_packets == c.rx_packets.wrapping_add(1)
            &&& after.tx_packets == bump_if(c.tx_packets, packet_gen::flaw(kind) is None)
            &&& after.drop_validation_failed == bump_if(
                c.drop_validation_failed,
                packet_gen::flaw(kind) is Some,
            )
        }),
{
    packet_gen::packet_shows_its_flaw(params_for(kind), config);
}

/// Every packet that is received is either sent or dropped.
pub proof fn received_is_sent_or_dropped(
    c: BenchCounters,
    len: int,
    outcome: Result<(), ValidationError>,
)
    requires
        c.rx_packets == c.tx_packets + c.drop_validation_failed,
        c.rx_packets < u64::MAX,
    ensures
        c.with_packet(len, outcome).rx_packets == c.with_packet(len, outcome).tx_packets
            + c.with_packet(len, outcome).drop_validation_failed,
{
}

/// The counter of the packets that failed with this error.
pub open spec fn failed_with(c: BenchCounters, e: ValidationError) -> u64 {
    match e {
        ValidationError::Parse(e) => match e {
            ParseError::BufferTooSmall => c.too_small,
            ParseError::NonIPv4 => c.non_ipv4,
            ParseError::BadIpHdrLen => c.bad_ip_len,
            ParseError::NonTCP => c.non_tcp,
            ParseError::BadIpChecksum => c.bad_ip_csum,
            ParseError::BadTcpHdrLen => c.bad_tcp_len,
            ParseError::WrongPort => c.wrong_port,
            ParseError::BadHttp2Hdr => c.bad_http2,
            ParseError::NonHttp2Data => c.non_http2_data,
            ParseError::BadGrpcHdr => c.bad_grpc,
            ParseError::PayloadOverflow => c.l4_overflow,
        },
        ValidationError::Proto(e) => match e {
            ProtoError::InvalidVarint => c.invalid_varint,
            ProtoError::InvalidWireType => c.invalid_wire_type,
            ProtoError::RecursionLimit => c.recursion_limit,
            ProtoError::BufferUnderflow => c.buffer_underflow,
            ProtoError::ShapeDimensionLimit => c.shape_dim_limit,
            ProtoError::ShapeValueInvalid => c.shape_val_invalid,
            ProtoError::TensorSizeLimit => c.tensor_size_limit,
            ProtoError::InvalidVarintBytes => c.invalid_varint_bytes,
        },
    }
}

/// What is reported of the packets that failed with this error.
pub open spec fn reported_with(m: CustosMetrics, e: ValidationError) -> u64 {
    match e {
        ValidationError::Parse(e) => match e {
            ParseError::BufferTooSmall => m.parser_failures.too_small,
            ParseError::NonIPv4 => m.parser_failures.non_ipv4,
            ParseError::BadIpHdrLen => m.parser_failures.bad_ip_len,
            ParseError::NonTCP => m.parser_failures.non_tcp,
            ParseError::BadIpChecksum => m.parser_failures.bad_ip_csum,
            ParseError::BadTcpHdrLen => m.parser_failures.bad_tcp_len,
            ParseError::WrongPort => m.parser_failures.wrong_port,
            ParseError::BadHttp2Hdr => m.parser_failures.bad_http2,
            ParseError::NonHttp2Data => m.parser_failures.non_http2_data,
            ParseError::BadGrpcHdr => m.parser_failures.bad_grpc,
            ParseError::PayloadOverflow => m.parser_failures.l4_overflow,
        },
        ValidationError::Proto(e) => match e {
            ProtoError::InvalidVarint => m.anomalies.invalid_varint,
            ProtoError::InvalidWireType => m.anomalies.invalid_wire_type,
            ProtoError::RecursionLimit => m.anomalies.recursion_limit,
            ProtoError::BufferUnderflow => m.anomalies.buffer_underflow,
            ProtoError::ShapeDimensionLimit => m.anomalies.shape_dim_limit,
            ProtoError::ShapeValueInvalid => m.anomalies.shape_val_invalid,
            ProtoError::TensorSizeLimit => m.anomalies.tensor_size_limit,
            ProtoError::InvalidVarintBytes => m.anomalies.invalid_varint_bytes,
        },
    }
}

/// A packet raises the counter of its own error by one, and of no other. A valid one
/// raises those of all layers, and counts, with its bytes, as sent and as come back; a
/// packet that is not valid counts as dropped. Either counts, with its bytes, as
/// received.
pub proof fn packet_is_counted_once(
    c: BenchCounters,
    len: int,
    outcome: Result<(), ValidationError>,
    e: ValidationError,
)
    requires
        0 <= len,
        c.rx_packets < u64::MAX && c.tx_packets < u64::MAX && c.recycled_packets < u64::MAX,
        c.drop_validation_failed < u64::MAX,
        c.rx_bytes + len <= u64::MAX && c.tx_bytes + len <= u64::MAX,
        c.ipv4 < u64::MAX && c.tcp < u64::MAX && c.http2 < u64::MAX,
        c.grpc < u64::MAX && c.protobuf < u64::MAX,
        failed_with(c, e) < u64::MAX,
    ensures
        ({
            let after = c.with_packet(len, outcome);
            let valid = if outcome is Ok {
                1int
            } else {
                0int
            };
            &&& failed_with(after, e) == failed_with(c, e) + if outcome == Err::<(), _>(e) {
                1int
            } else {
                0int
            }
            &&& after.rx_packets == c.rx_packets + 1
            &&& after.rx_bytes == c.rx_bytes + len
            &&& after.tx_packets == c.tx_packets + valid
            &&& after.tx_bytes == c.tx_bytes + valid * len
            &&& after.recycled_packets == c.recycled_packets + valid
            &&& after.drop_validation_failed == c.drop_validation_failed + 1 - valid
            &&& after.ipv4 == c.ipv4 + valid
            &&& after.tcp == c.tcp + valid
            &&& after.http2 == c.http2 + valid
            &&& after.grpc == c.grpc + valid
            &&& after.protobuf == c.protobuf + valid
        }),
{
}

/// A packet that went out through a socket counts, with its bytes, as sent, and as
/// nothing else.
pub proof fn sent_packet_is_counted_once(c: BenchCounters, len: int, e: ValidationError)
    requires
        0 <= len,
        c.tx_packets < u64::MAX,
        c.tx_bytes + len <= u64::MAX,
    ensures
        c.with_sent(len).tx_packets == c.tx_packets + 1,
        c.with_sent(len).tx_bytes == c.tx_bytes + len,
        c.with_sent(len).rx_packets == c.rx_packets,
        c.with_sent(len).rx_bytes == c.rx_bytes,
        c.with_sent(len).drop_validation_failed == c.drop_validation_failed,
        failed_with(c.with_sent(len), e) == failed_with(c, e),
{
}

/// What is reported is what was counted.
pub proof fn counters_are_reported(c: BenchCounters, e: ValidationError)
    ensures
        ({
            let m = c.reported();
            &&& reported_with(m, e) == failed_with(c, e)
            &&& m.rx_packets == c.rx_packets && m.rx_bytes == c.rx_bytes
            &&& m.tx_packets == c.tx_packets && m.tx_bytes == c.tx_bytes
            &&& m.recycled_packets == c.recycled_packets
            &&& m.drop_validation_failed == c.drop_validation_failed
            &&& m.protocol_counts.ipv4 == c.ipv4 && m.protocol_counts.tcp == c.tcp
            &&& m.protocol_counts.http2 == c.http2 && m.protocol_counts.grpc == c.grpc
            &&& m.protocol_counts.protobuf == c.protobuf
        }),
{
}

/// Nothing is counted before the first packet.
pub proof fn counters_start_at_zero(e: ValidationError)
    ensures
        failed_with(BenchCounters::zero(), e) == 0,
        BenchCounters::zero().rx_packets == 0 && BenchCounters::zero().tx_packets == 0,
        BenchCounters::zero().rx_bytes == 0 && BenchCounters::zero().tx_bytes == 0,
        BenchCounters::zero().drop_validation_failed == 0,
        BenchCounters::zero().recycled_packets == 0 && BenchCounters::zero().protobuf == 0,
{
}

/// The report shows each figure under its own name, on a line of its own.
pub proof fn bench_report_shows_its_figures(
    m: CustosMetrics,
    rx_pps: Seq<char>,
    rx_gbps: Seq<char>,
)
    ensures
        ({
            let s = bench_exposition(m, rx_pps, rx_gbps);
            let number = |n: u64| text::decimal(n as nat);
            &&& prometheus::shows(s, "custos_rx_packets"@, number(m.rx_packets))
            &&& prometheus::shows(s, "custos_tx_packets"@, number(m.tx_packets))
            &&& prometheus::shows(
                s,
                "custos_validation_drops"@,
                number(m.drop_validation_failed),
            )
            &&& prometheus::shows(s, "custos_rx_pps"@, rx_pps)
            &&& prometheus::shows(s, "custos_rx_gbps"@, rx_gbps)
            &&& prometheus::shows(
                s,
                "custos_protobuf_matches"@,
                number(m.protocol_counts.protobuf),
            )
        }),
{
    let a = counter(
        "custos_rx_packets"@,
        "Total number of packets received by the interface"@,
        m.rx_packets,
    );
    let b = counter(
        "custos_tx_packets"@,
        "Total number of packets processed and forwarded"@,
        m.tx_packets,
    );
    let c = counter(
        "custos_validation_drops"@,
        "Total validation security drops"@,
        m.drop_validation_failed,
    );
    let d = prometheus::family(
        "custos_rx_pps"@,
        "Current packets per second rate"@,
        "gauge"@,
        rx_pps,
    );
    let e = prometheus::family(
        "custos_rx_gbps"@,
        "Current line throughput in Gbps"@,
        "gauge"@,
        rx_gbps,
    );
    let f = prometheus::header(
        "custos_protobuf_matches"@,
        "Successful protobuf shape validations"@,
        "counter"@,
    );
    let value = text::decimal(m.protocol_counts.protobuf as nat);
    let g = prometheus::sample("custos_protobuf_matches"@, value);
    prometheus::counter_shows(
        "custos_rx_packets"@,
        "Total number of packets received by the interface"@,
        m.rx_packets,
    );
    prometheus::counter_shows(
        "custos_tx_packets"@,
        "Total number of packets processed and forwarded"@,
        m.tx_packets,
    );
    prometheus::counter_shows(
        "custos_validation_drops"@,
        "Total validation security drops"@,
        m.drop_validation_failed,
    );
    prometheus::family_shows(
        "custos_rx_pps"@,
        "Current packets per second rate"@,
        "gauge"@,
        rx_pps,
    );
    prometheus::family_shows(
        "custos_rx_gbps"@,
        "Current line throughput in Gbps"@,
        "gauge"@,
        rx_gbps,
    );
    prometheus::header_ends(
        "custos_protobuf_matches"@,
        "Successful protobuf shape validations"@,
        "counter"@,
    );
    prometheus::sample_shows("custos_protobuf_matches"@, value);
    prometheus::lines_stay(a, b);
    prometheus::lines_stay(a + b, c);
    prometheus::lines_stay(a + b + c, d);
    prometheus::lines_stay(a + b + c + d, e);
    prometheus::lines_stay(a + b + c + d + e, f);
    prometheus::lines_stay(a + b + c + d + e + f, g);
}

/// The kinds of flaws of each mix: every packet beyond the share without flaws is of a
/// kind that the mix is known for.
pub proof fn mixes_have_their_flaws(profile: TestProfile, roll: u32)
    requires
        sound_share(profile) <= roll < 100,
    ensures
        profile is Light ==> profile.in_memory(roll) is WrongPort && profile.on_wire(
            roll,
        ) is WrongPort && profile.in_capture(roll) is WrongPort,
        profile is HeavyBurst ==> !(profile.in_memory(roll) is WrongPort) && profile.on_wire(
            roll,
        ) is InvalidShapeValue && !(profile.in_capture(roll) is WrongPort),
        profile is Sustained ==> (profile.in_memory(roll) is InvalidShapeValue
            || profile.in_memory(roll) is ShapeDimLimitExceeded || profile.in_memory(
            roll,
        ) is RecursionLimitExceeded) && profile.on_wire(roll) is RecursionLimitExceeded
            && profile.in_capture(roll) is ShapeDimLimitExceeded,
        is_sound(profile.in_memory(0)) && (profile is Sustained <==> profile.in_memory(
            0,
        ) is ValidUnpacked),
{
}

/// The rates and workers of the mixes: ten thousand packets in a second by one worker, a
/// million by four, in bursts of five million and lulls of a hundred thousand, and a
/// steady million by two. A rate that is asked for is kept to.
pub proof fn rates_of_the_mixes(profile: TestProfile, asked: u64, slot: u64)
    ensures
        profile is Light ==> profile.default_rate() == 10_000 && profile.workers() == 1
            && profile.rate_in_slot(None, slot) == 10_000,
        profile is HeavyBurst ==> profile.default_rate() == 1_000_000 && profile.workers() == 4
            && (profile.rate_in_slot(None, slot) == 5_000_000 || profile.rate_in_slot(None, slot)
            == 100_000),
        profile is Sustained ==> profile.default_rate() == 1_000_000 && profile.workers() == 2
            && profile.rate_in_slot(None, slot) == 1_000_000,
        profile.rate_in_slot(Some(asked), slot) == asked,
{
}

/// The rolls for which a worker in memory makes a packet of this kind, from the first on
/// and up to before the second.
pub open spec fn rolls_in_memory(profile: TestProfile, kind: TrafficProfile) -> (int, int) {
    match (profile, kind) {
        (TestProfile::Light, TrafficProfile::ValidPacked) => (0, 95),
        (TestProfile::Light, TrafficProfile::WrongPort) => (95, 100),
        (TestProfile::HeavyBurst, TrafficProfile::ValidPacked) => (0, 80),
        (TestProfile::HeavyBurst, TrafficProfile::InvalidShapeValue) => (80, 83),
        (TestProfile::HeavyBurst, TrafficProfile::ShapeDimLimitExceeded) => (83, 86),
        (TestProfile::HeavyBurst, TrafficProfile::RecursionLimitExceeded) => (86, 89),
        (TestProfile::HeavyBurst, TrafficProfile::InvalidVarint) => (89, 92),
        (TestProfile::HeavyBurst, TrafficProfile::BadTcpChecksum) => (92, 94),
        (TestProfile::HeavyBurst, TrafficProfile::BadHttp2) => (94, 97),
        (TestProfile::HeavyBurst, TrafficProfile::BadGrpc) => (97, 100),
        (TestProfile::Sustained, TrafficProfile::ValidUnpacked) => (0, 90),
        (TestProfile::Sustained, TrafficProfile::InvalidShapeValue) => (90, 93),
        (TestProfile::Sustained, TrafficProfile::ShapeDimLimitExceeded) => (93, 96),
        (TestProfile::Sustained, TrafficProfile::RecursionLimitExceeded) => (96, 100),
        _ => (0, 0),
    }
}

/// The rolls for which a packet of this kind goes into a capture.
pub open spec fn rolls_in_capture(profile: TestProfile, kind: TrafficProfile) -> (int, int) {
    match (profile, kind) {
        (TestProfile::Light, TrafficProfile::ValidPacked) => (0, 95),
        (TestProfile::Light, TrafficProfile::WrongPort) => (95, 100),
        (TestProfile::HeavyBurst, TrafficProfile::ValidPacked) => (0, 80),
        (TestProfile::HeavyBurst, TrafficProfile::InvalidShapeValue) => (80, 85),
        (TestProfile::HeavyBurst, TrafficProfile::RecursionLimitExceeded) => (85, 90),
        (TestProfile::HeavyBurst, TrafficProfile::BadHttp2) => (90, 95),
        (TestProfile::HeavyBurst, TrafficProfile::BadTcpChecksum) => (95, 100),
        (TestProfile::Sustained, TrafficProfile::ValidUnpacked) => (0, 90),
        (TestProfile::Sustained, TrafficProfile::ShapeDimLimitExceeded) => (90, 100),
        _ => (0, 0),
    }
}

/// Every kind of packet has its share of the rolls of a mix, and a packet of that kind is
/// made for exactly those.
pub proof fn kinds_have_their_rolls(profile: TestProfile, kind: TrafficProfile, roll: u32)
    requires
        roll < 100,
    ensures
        profile.in_memory(roll) == kind <==> rolls_in_memory(profile, kind).0 <= roll
            < rolls_in_memory(profile, kind).1,
        profile.in_capture(roll) == kind <==> rolls_in_capture(profile, kind).0 <= roll
            < rolls_in_capture(profile, kind).1,
{
}

/// A counter that grew has moved by as much as it grew, and one that did not has not moved.
pub proof fn moved_by_what_was_counted(last: u64, more: u64)
    requires
        last + more <= u64::MAX,
    ensures
        moved((last + more) as u64, last) == more,
        more > 0 ==> moved(last, (last + more) as u64) == 0,
        moved(last, last) == 0,
{
}

/// A history that is not full keeps all that it has, and puts the new measurement last.
pub proof fn short_history_grows<T>(list: Seq<T>, capacity: int, x: T)
    requires
        list.len() < capacity,
    ensures
        slid(list, capacity, x).len() == list.len() + 1,
        slid(list, capacity, x).last() == x,
        slid(list, capacity, x).drop_last() == list,
{
    assert(slid(list, capacity, x).drop_last() =~= list);
}

} // verus!
