//! Counters of a worker, and their sums over all workers.
use crate::grpc::ParseError;
use crate::protobuf::{ProtoError, ValidationError};
use vstd::prelude::*;

verus! {

/// The counters of one worker.
#[derive(Clone, Copy, Debug, PartialEq, Eq, Structural)]
pub struct ThreadStats {
    /// Packets received.
    pub rx_packets: u64,
    /// Bytes received.
    pub rx_bytes: u64,
    /// Packets handed to the transmit ring.
    pub tx_packets: u64,
    /// Bytes handed to the transmit ring.
    pub tx_bytes: u64,
    /// Frames that came back from the completion ring.
    pub recycled_packets: u64,
    /// Packets dropped because validation failed.
    pub drop_validation_failed: u64,
    /// Packets that turned out to be IPv4.
    pub stat_ipv4: u64,
    /// Packets that turned out to be TCP.
    pub stat_tcp: u64,
    /// Packets that turned out to hold an HTTP/2 DATA frame.
    pub stat_http2_data: u64,
    /// Packets that turned out to hold a gRPC message.
    pub stat_grpc: u64,
    /// Packets with a valid Protobuf payload.
    pub stat_protobuf: u64,
    pub err_too_small: u64,
    pub err_non_ipv4: u64,
    pub err_bad_ip_len: u64,
    pub err_non_tcp: u64,
    pub err_bad_ip_csum: u64,
    pub err_bad_tcp_len: u64,
    pub err_wrong_port: u64,
    pub err_bad_http2: u64,
    pub err_non_http2_data: u64,
    pub err_bad_grpc: u64,
    pub err_l4_overflow: u64,
    pub anomaly_invalid_varint: u64,
    pub anomaly_invalid_wire_type: u64,
    pub anomaly_recursion_limit: u64,
    pub anomaly_buffer_underflow: u64,
    pub anomaly_shape_dim_limit: u64,
    pub anomaly_shape_val_invalid: u64,
    pub anomaly_tensor_size_limit: u64,
    pub anomaly_invalid_varint_bytes: u64,
    /// Packets of at most 64 bytes.
    pub hist_payload_0_64: u64,
    pub hist_payload_65_256: u64,
    pub hist_payload_257_1024: u64,
    pub hist_payload_1025_2048: u64,
    /// Packets of more than 2048 bytes.
    pub hist_payload_2049_inf: u64,
    /// Packets processed in at most 100 ns.
    pub hist_latency_100ns: u64,
    pub hist_latency_500ns: u64,
    pub hist_latency_1us: u64,
    pub hist_latency_5us: u64,
    pub hist_latency_10us: u64,
    pub hist_latency_50us: u64,
    /// Packets processed in more than 50 us.
    pub hist_latency_inf: u64,
    /// Processing time of all packets that were timed, in nanoseconds.
    pub latency_sum_ns: u64,
    /// Packets that were timed.
    pub latency_count: u64,
}

/// One of the counters.
pub enum Counter {
    RxPackets,
    RxBytes,
    TxPackets,
    TxBytes,
    RecycledPackets,
    DropValidationFailed,
    StatIpv4,
    StatTcp,
    StatHttp2Data,
    StatGrpc,
    StatProtobuf,
    ErrTooSmall,
    ErrNonIpv4,
    ErrBadIpLen,
    ErrNonTcp,
    ErrBadIpCsum,
    ErrBadTcpLen,
    ErrWrongPort,
    ErrBadHttp2,
    ErrNonHttp2Data,
    ErrBadGrpc,
    ErrL4Overflow,
    AnomalyInvalidVarint,
    AnomalyInvalidWireType,
    AnomalyRecursionLimit,
    AnomalyBufferUnderflow,
    AnomalyShapeDimLimit,
    AnomalyShapeValInvalid,
    AnomalyTensorSizeLimit,
    AnomalyInvalidVarintBytes,
    HistPayload064,
    HistPayload65256,
    HistPayload2571024,
    HistPayload10252048,
    HistPayload2049Inf,
    HistLatency100ns,
    HistLatency500ns,
    HistLatency1us,
    HistLatency5us,
    HistLatency10us,
    HistLatency50us,
    HistLatencyInf,
    LatencySumNs,
    LatencyCount,
}

impl ThreadStats {
    /// The value of a counter.
    pub open spec fn get(self, counter: Counter) -> u64 {
        match counter {
            Counter::RxPackets => self.rx_packets,
            Counter::RxBytes => self.rx_bytes,
            Counter::TxPackets => self.tx_packets,
            Counter::TxBytes => self.tx_bytes,
            Counter::RecycledPackets => self.recycled_packets,
            Counter::DropValidationFailed => self.drop_validation_failed,
            Counter::StatIpv4 => self.stat_ipv4,
            Counter::StatTcp => self.stat_tcp,
            Counter::StatHttp2Data => self.stat_http2_data,
            Counter::StatGrpc => self.stat_grpc,
            Counter::StatProtobuf => self.stat_protobuf,
            Counter::ErrTooSmall => self.err_too_small,
            Counter::ErrNonIpv4 => self.err_non_ipv4,
            Counter::ErrBadIpLen => self.err_bad_ip_len,
            Counter::ErrNonTcp => self.err_non_tcp,
            Counter::ErrBadIpCsum => self.err_bad_ip_csum,
            Counter::ErrBadTcpLen => self.err_bad_tcp_len,
            Counter::ErrWrongPort => self.err_wrong_port,
            Counter::ErrBadHttp2 => self.err_bad_http2,
            Counter::ErrNonHttp2Data => self.err_non_http2_data,
            Counter::ErrBadGrpc => self.err_bad_grpc,
            Counter::ErrL4Overflow => self.err_l4_overflow,
            Counter::AnomalyInvalidVarint => self.anomaly_invalid_varint,
            Counter::AnomalyInvalidWireType => self.anomaly_invalid_wire_type,
            Counter::AnomalyRecursionLimit => self.anomaly_recursion_limit,
            Counter::AnomalyBufferUnderflow => self.anomaly_buffer_underflow,
            Counter::AnomalyShapeDimLimit => self.anomaly_shape_dim_limit,
            Counter::AnomalyShapeValInvalid => self.anomaly_shape_val_invalid,
            Counter::AnomalyTensorSizeLimit => self.anomaly_tensor_size_limit,
            Counter::AnomalyInvalidVarintBytes => self.anomaly_invalid_varint_bytes,
            Counter::HistPayload064 => self.hist_payload_0_64,
            Counter::HistPayload65256 => self.hist_payload_65_256,
            Counter::HistPayload2571024 => self.hist_payload_257_1024,
            Counter::HistPayload10252048 => self.hist_payload_1025_2048,
            Counter::HistPayload2049Inf => self.hist_payload_2049_inf,
            Counter::HistLatency100ns => self.hist_latency_100ns,
            Counter::HistLatency500ns => self.hist_latency_500ns,
            Counter::HistLatency1us => self.hist_latency_1us,
            Counter::HistLatency5us => self.hist_latency_5us,
            Counter::HistLatency10us => self.hist_latency_10us,
            Counter::HistLatency50us => self.hist_latency_50us,
            Counter::HistLatencyInf => self.hist_latency_inf,
            Counter::LatencySumNs => self.latency_sum_ns,
            Counter::LatencyCount => self.latency_count,
        }
    }
}

impl ThreadStats {
    /// All counters are zero.
    pub open spec fn zero() -> ThreadStats {
        ThreadStats {
            rx_packets: 0,
            rx_bytes: 0,
            tx_packets: 0,
            tx_bytes: 0,
            recycled_packets: 0,
            drop_validation_failed: 0,
            stat_ipv4: 0,
            stat_tcp: 0,
            stat_http2_data: 0,
            stat_grpc: 0,
            stat_protobuf: 0,
            err_too_small: 0,
            err_non_ipv4: 0,
            err_bad_ip_len: 0,
            err_non_tcp: 0,
            err_bad_ip_csum: 0,
            err_bad_tcp_len: 0,
            err_wrong_port: 0,
            err_bad_http2: 0,
            err_non_http2_data: 0,
            err_bad_grpc: 0,
            err_l4_overflow: 0,
            anomaly_invalid_varint: 0,
            anomaly_invalid_wire_type: 0,
            anomaly_recursion_limit: 0,
            anomaly_buffer_underflow: 0,
            anomaly_shape_dim_limit: 0,
            anomaly_shape_val_invalid: 0,
            anomaly_tensor_size_limit: 0,
            anomaly_invalid_varint_bytes: 0,
            hist_payload_0_64: 0,
            hist_payload_65_256: 0,
            hist_payload_257_1024: 0,
            hist_payload_1025_2048: 0,
            hist_payload_2049_inf: 0,
            hist_latency_100ns: 0,
            hist_latency_500ns: 0,
            hist_latency_1us: 0,
            hist_latency_5us: 0,
            hist_latency_10us: 0,
            hist_latency_50us: 0,
            hist_latency_inf: 0,
            latency_sum_ns: 0,
            latency_count: 0,
        }
    }
}

impl Default for ThreadStats {
    fn default() -> (stats: Self)
        ensures
            stats == ThreadStats::zero(),
            forall|c: Counter| stats.get(c) == 0,
    {
        ThreadStats {
            rx_packets: 0,
            rx_bytes: 0,
            tx_packets: 0,
            tx_bytes: 0,
            recycled_packets: 0,
            drop_validation_failed: 0,
            stat_ipv4: 0,
            stat_tcp: 0,
            stat_http2_data: 0,
            stat_grpc: 0,
            stat_protobuf: 0,
            err_too_small: 0,
            err_non_ipv4: 0,
            err_bad_ip_len: 0,
            err_non_tcp: 0,
            err_bad_ip_csum: 0,
            err_bad_tcp_len: 0,
            err_wrong_port: 0,
            err_bad_http2: 0,
            err_non_http2_data: 0,
            err_bad_grpc: 0,
            err_l4_overflow: 0,
            anomaly_invalid_varint: 0,
            anomaly_invalid_wire_type: 0,
            anomaly_recursion_limit: 0,
            anomaly_buffer_underflow: 0,
            anomaly_shape_dim_limit: 0,
            anomaly_shape_val_invalid: 0,
            anomaly_tensor_size_limit: 0,
            anomaly_invalid_varint_bytes: 0,
            hist_payload_0_64: 0,
            hist_payload_65_256: 0,
            hist_payload_257_1024: 0,
            hist_payload_1025_2048: 0,
            hist_payload_2049_inf: 0,
            hist_latency_100ns: 0,
            hist_latency_500ns: 0,
            hist_latency_1us: 0,
            hist_latency_5us: 0,
            hist_latency_10us: 0,
            hist_latency_50us: 0,
            hist_latency_inf: 0,
            latency_sum_ns: 0,
            latency_count: 0,
        }
    }
}

// ---------------------------------------------------------------------------
// Recording
// ---------------------------------------------------------------------------

/// A counter, one higher where `cond` holds. A counter wraps around.
pub open spec fn bump_if(n: u64, cond: bool) -> u64 {
    if cond {
        n.wrapping_add(1)
    } else {
        n
    }
}

/// A packet with this outcome got past the check that it is IPv4.
pub open spec fn passed_ipv4(outcome: Result<(), ValidationError>) -> bool {
    match outcome {
        Err(ValidationError::Parse(ParseError::BufferTooSmall)) => false,
        Err(ValidationError::Parse(ParseError::NonIPv4)) => false,
        Err(ValidationError::Parse(ParseError::BadIpHdrLen)) => false,
        _ => true,
    }
}

/// A packet with this outcome got past the checks of the IPv4 header.
pub open spec fn passed_tcp(outcome: Result<(), ValidationError>) -> bool {
    passed_ipv4(outcome) && match outcome {
        Err(ValidationError::Parse(ParseError::NonTCP)) => false,
        Err(ValidationError::Parse(ParseError::BadIpChecksum)) => false,
        _ => true,
    }
}

/// A packet with this outcome got as far as an HTTP/2 DATA frame.
pub open spec fn passed_http2(outcome: Result<(), ValidationError>) -> bool {
    match outcome {
        Err(ValidationError::Parse(e)) => e == ParseError::BadGrpcHdr || e
            == ParseError::PayloadOverflow,
        _ => true,
    }
}

/// A packet with this outcome got as far as its gRPC message.
pub open spec fn passed_grpc(outcome: Result<(), ValidationError>) -> bool {
    outcome !is Err || outcome->Err_0 !is Parse
}

impl ThreadStats {
    /// The counters after a packet of this many bytes was recorded.
    pub open spec fn with_payload(self, bytes: int) -> ThreadStats {
        ThreadStats {
            hist_payload_0_64: bump_if(self.hist_payload_0_64, bytes <= 64),
            hist_payload_65_256: bump_if(self.hist_payload_65_256, 64 < bytes <= 256),
            hist_payload_257_1024: bump_if(self.hist_payload_257_1024, 256 < bytes <= 1024),
            hist_payload_1025_2048: bump_if(self.hist_payload_1025_2048, 1024 < bytes <= 2048),
            hist_payload_2049_inf: bump_if(self.hist_payload_2049_inf, 2048 < bytes),
            ..self
        }
    }

    /// The counters after a packet was recorded that took this long.
    pub open spec fn with_latency(self, nanos: u64) -> ThreadStats {
        ThreadStats {
            latency_sum_ns: self.latency_sum_ns.wrapping_add(nanos),
            latency_count: self.latency_count.wrapping_add(1),
            hist_latency_100ns: bump_if(self.hist_latency_100ns, nanos <= 100),
            hist_latency_500ns: bump_if(self.hist_latency_500ns, 100 < nanos <= 500),
            hist_latency_1us: bump_if(self.hist_latency_1us, 500 < nanos <= 1_000),
            hist_latency_5us: bump_if(self.hist_latency_5us, 1_000 < nanos <= 5_000),
            hist_latency_10us: bump_if(self.hist_latency_10us, 5_000 < nanos <= 10_000),
            hist_latency_50us: bump_if(self.hist_latency_50us, 10_000 < nanos <= 50_000),
            hist_latency_inf: bump_if(self.hist_latency_inf, 50_000 < nanos),
            ..self
        }
    }

    /// The counters after the outcome of a validation was recorded: how far the
    /// packet got, and what it failed on.
    pub open spec fn with_outcome(self, outcome: Result<(), ValidationError>) -> ThreadStats {
        let parse = |e: ParseError| outcome == Err::<(), _>(ValidationError::Parse(e));
        let proto = |e: ProtoError| outcome == Err::<(), _>(ValidationError::Proto(e));
        ThreadStats {
            drop_validation_failed: bump_if(self.drop_validation_failed, outcome is Err),
            stat_ipv4: bump_if(self.stat_ipv4, passed_ipv4(outcome)),
            stat_tcp: bump_if(self.stat_tcp, passed_tcp(outcome)),
            stat_http2_data: bump_if(self.stat_http2_data, passed_http2(outcome)),
            stat_grpc: bump_if(self.stat_grpc, passed_grpc(outcome)),
            stat_protobuf: bump_if(self.stat_protobuf, outcome is Ok),
            err_too_small: bump_if(self.err_too_small, parse(ParseError::BufferTooSmall)),
            err_non_ipv4: bump_if(self.err_non_ipv4, parse(ParseError::NonIPv4)),
            err_bad_ip_len: bump_if(self.err_bad_ip_len, parse(ParseError::BadIpHdrLen)),
            err_non_tcp: bump_if(self.err_non_tcp, parse(ParseError::NonTCP)),
            err_bad_ip_csum: bump_if(self.err_bad_ip_csum, parse(ParseError::BadIpChecksum)),
            err_bad_tcp_len: bump_if(self.err_bad_tcp_len, parse(ParseError::BadTcpHdrLen)),
            err_wrong_port: bump_if(self.err_wrong_port, parse(ParseError::WrongPort)),
            err_bad_http2: bump_if(self.err_bad_http2, parse(ParseError::BadHttp2Hdr)),
            err_non_http2_data: bump_if(self.err_non_http2_data, parse(ParseError::NonHttp2Data)),
            err_bad_grpc: bump_if(self.err_bad_grpc, parse(ParseError::BadGrpcHdr)),
            err_l4_overflow: bump_if(self.err_l4_overflow, parse(ParseError::PayloadOverflow)),
            anomaly_invalid_varint: bump_if(
                self.anomaly_invalid_varint,
                proto(ProtoError::InvalidVarint),
            ),
            anomaly_invalid_wire_type: bump_if(
                self.anomaly_invalid_wire_type,
                proto(ProtoError::InvalidWireType),
            ),
            anomaly_recursion_limit: bump_if(
                self.anomaly_recursion_limit,
                proto(ProtoError::RecursionLimit),
            ),
            anomaly_buffer_underflow: bump_if(
                self.anomaly_buffer_underflow,
                proto(ProtoError::BufferUnderflow),
            ),
            anomaly_shape_dim_limit: bump_if(
                self.anomaly_shape_dim_limit,
                proto(ProtoError::ShapeDimensionLimit),
            ),
            anomaly_shape_val_invalid: bump_if(
                self.anomaly_shape_val_invalid,
                proto(ProtoError::ShapeValueInvalid),
            ),
            anomaly_tensor_size_limit: bump_if(
                self.anomaly_tensor_size_limit,
                proto(ProtoError::TensorSizeLimit),
            ),
            anomaly_invalid_varint_bytes: bump_if(
                self.anomaly_invalid_varint_bytes,
                proto(ProtoError::InvalidVarintBytes),
            ),
            ..self
        }
    }

    /// Records the size of a packet in the histogram.
    pub fn record_payload_size(&mut self, bytes: usize)
        ensures
            *final(self) == old(self).with_payload(bytes as int),
    {
        if bytes <= 64 {
            self.hist_payload_0_64 = self.hist_payload_0_64.wrapping_add(1);
        } else if bytes <= 256 {
            self.hist_payload_65_256 = self.hist_payload_65_256.wrapping_add(1);
        } else if bytes <= 1024 {
            self.hist_payload_257_1024 = self.hist_payload_257_1024.wrapping_add(1);
        } else if bytes <= 2048 {
            self.hist_payload_1025_2048 = self.hist_payload_1025_2048.wrapping_add(1);
        } else {
            self.hist_payload_2049_inf = self.hist_payload_2049_inf.wrapping_add(1);
        }
    }

    /// Records in the histogram how long a packet took.
    pub fn record_latency_ns(&mut self, nanos: u64)
        ensures
            *final(self) == old(self).with_latency(nanos),
    {
        self.latency_sum_ns = self.latency_sum_ns.wrapping_add(nanos);
        self.latency_count = self.latency_count.wrapping_add(1);
        if nanos <= 100 {
            self.hist_latency_100ns = self.hist_latency_100ns.wrapping_add(1);
        } else if nanos <= 500 {
            self.hist_latency_500ns = self.hist_latency_500ns.wrapping_add(1);
        } else if nanos <= 1_000 {
            self.hist_latency_1us = self.hist_latency_1us.wrapping_add(1);
        } else if nanos <= 5_000 {
            self.hist_latency_5us = self.hist_latency_5us.wrapping_add(1);
        } else if nanos <= 10_000 {
            self.hist_latency_10us = self.hist_latency_10us.wrapping_add(1);
        } else if nanos <= 50_000 {
            self.hist_latency_50us = self.hist_latency_50us.wrapping_add(1);
        } else {
            self.hist_latency_inf = self.hist_latency_inf.wrapping_add(1);
        }
    }

    /// Records the outcome of a validation.
    pub fn record_outcome(&mut self, outcome: Result<(), ValidationError>)
        ensures
            *final(self) == old(self).with_outcome(outcome),
    {
        match outcome {
            Ok(_) => {
                self.count_layers(4);
                self.stat_protobuf = self.stat_protobuf.wrapping_add(1);
            },
            Err(ValidationError::Parse(e)) => {
                self.drop_validation_failed = self.drop_validation_failed.wrapping_add(1);
                self.record_parse_error(e);
            },
            Err(ValidationError::Proto(e)) => {
                self.drop_validation_failed = self.drop_validation_failed.wrapping_add(1);
                self.count_layers(4);
                self.record_proto_error(e);
            },
        }
    }

    /// Counts a packet at each of the first `layers` layers: IPv4, TCP, HTTP/2
    /// and gRPC.
    fn count_layers(&mut self, layers: u8)
        ensures
            *final(self) == (ThreadStats {
                stat_ipv4: bump_if(old(self).stat_ipv4, layers >= 1),
                stat_tcp: bump_if(old(self).stat_tcp, layers >= 2),
                stat_http2_data: bump_if(old(self).stat_http2_data, layers >= 3),
                stat_grpc: bump_if(old(self).stat_grpc, layers >= 4),
                ..*old(self)
            }),
    {
        if layers >= 1 {
            self.stat_ipv4 = self.stat_ipv4.wrapping_add(1);
        }
        if layers >= 2 {
            self.stat_tcp = self.stat_tcp.wrapping_add(1);
        }
        if layers >= 3 {
            self.stat_http2_data = self.stat_http2_data.wrapping_add(1);
        }
        if layers >= 4 {
            self.stat_grpc = self.stat_grpc.wrapping_add(1);
        }
    }

    /// Counts a packet that failed to parse, and how far it got.
    fn record_parse_error(&mut self, e: ParseError)
        ensures
            ({
                let outcome = Err::<(), _>(ValidationError::Parse(e));
                let tallied = old(self).with_outcome(outcome);
                *final(self) == (ThreadStats {
                    drop_validation_failed: old(self).drop_validation_failed,
                    ..tallied
                })
            }),
    {
        match e {
            ParseError::BufferTooSmall => {
                self.err_too_small = self.err_too_small.wrapping_add(1);
            },
            ParseError::NonIPv4 => {
                self.err_non_ipv4 = self.err_non_ipv4.wrapping_add(1);
            },
            ParseError::BadIpHdrLen => {
                self.err_bad_ip_len = self.err_bad_ip_len.wrapping_add(1);
            },
            ParseError::NonTCP => {
                self.count_layers(1);
                self.err_non_tcp = self.err_non_tcp.wrapping_add(1);
            },
            ParseError::BadIpChecksum => {
                self.count_layers(1);
                self.err_bad_ip_csum = self.err_bad_ip_csum.wrapping_add(1);
            },
            ParseError::BadTcpHdrLen => {
                self.count_layers(2);
                self.err_bad_tcp_len = self.err_bad_tcp_len.wrapping_add(1);
            },
            ParseError::WrongPort => {
                self.count_layers(2);
                self.err_wrong_port = self.err_wrong_port.wrapping_add(1);
            },
            ParseError::BadHttp2Hdr => {
                self.count_layers(2);
                self.err_bad_http2 = self.err_bad_http2.wrapping_add(1);
            },
            ParseError::NonHttp2Data => {
                self.count_layers(2);
                self.err_non_http2_data = self.err_non_http2_data.wrapping_add(1);
            },
            ParseError::BadGrpcHdr => {
                self.count_layers(3);
                self.err_bad_grpc = self.err_bad_grpc.wrapping_add(1);
            },
            ParseError::PayloadOverflow => {
                self.count_layers(3);
                self.err_l4_overflow = self.err_l4_overflow.wrapping_add(1);
            },
        }
    }

    /// Counts a packet whose payload is not right.
    fn record_proto_error(&mut self, e: ProtoError)
        ensures
            *final(self) == (ThreadStats {
                anomaly_invalid_varint: bump_if(
                    old(self).anomaly_invalid_varint,
                    e == ProtoError::InvalidVarint,
                ),
                anomaly_invalid_wire_type: bump_if(
                    old(self).anomaly_invalid_wire_type,
                    e == ProtoError::InvalidWireType,
                ),
                anomaly_recursion_limit: bump_if(
                    old(self).anomaly_recursion_limit,
                    e == ProtoError::RecursionLimit,
                ),
                anomaly_buffer_underflow: bump_if(
                    old(self).anomaly_buffer_underflow,
                    e == ProtoError::BufferUnderflow,
                ),
                anomaly_shape_dim_limit: bump_if(
                    old(self).anomaly_shape_dim_limit,
                    e == ProtoError::ShapeDimensionLimit,
                ),
                anomaly_shape_val_invalid: bump_if(
                    old(self).anomaly_shape_val_invalid,
                    e == ProtoError::ShapeValueInvalid,
                ),
                anomaly_tensor_size_limit: bump_if(
                    old(self).anomaly_tensor_size_limit,
                    e == ProtoError::TensorSizeLimit,
                ),
                anomaly_invalid_varint_bytes: bump_if(
                    old(self).anomaly_invalid_varint_bytes,
                    e == ProtoError::InvalidVarintBytes,
                ),
                ..*old(self)
            }),
    {
        match e {
            ProtoError::InvalidVarint => {
                self.anomaly_invalid_varint = self.anomaly_invalid_varint.wrapping_add(1);
            },
            ProtoError::InvalidWireType => {
                self.anomaly_invalid_wire_type = self.anomaly_invalid_wire_type.wrapping_add(1);
            },
            ProtoError::RecursionLimit => {
                self.anomaly_recursion_limit = self.anomaly_recursion_limit.wrapping_add(1);
            },
            ProtoError::BufferUnderflow => {
                self.anomaly_buffer_underflow = self.anomaly_buffer_underflow.wrapping_add(1);
            },
            ProtoError::ShapeDimensionLimit => {
                self.anomaly_shape_dim_limit = self.anomaly_shape_dim_limit.wrapping_add(1);
            },
            ProtoError::ShapeValueInvalid => {
                self.anomaly_shape_val_invalid = self.anomaly_shape_val_invalid.wrapping_add(1);
            },
            ProtoError::TensorSizeLimit => {
                self.anomaly_tensor_size_limit = self.anomaly_tensor_size_limit.wrapping_add(1);
            },
            ProtoError::InvalidVarintBytes => {
                self.anomaly_invalid_varint_bytes = self.anomaly_invalid_varint_bytes
                    .wrapping_add(1);
            },
        }
    }
}

// ---------------------------------------------------------------------------
// Totals
// ---------------------------------------------------------------------------

/// Sum of a counter over all workers.
pub open spec fn total(stats: Seq<ThreadStats>, counter: Counter) -> int
    decreases stats.len(),
{
    if stats.len() == 0 {
        0
    } else {
        total(stats.drop_last(), counter) + stats.last().get(counter)
    }
}

/// The counters of all workers, added up.
pub open spec fn summed(stats: Seq<ThreadStats>) -> ThreadStats {
    ThreadStats {
        rx_packets: total(stats, Counter::RxPackets) as u64,
        rx_bytes: total(stats, Counter::RxBytes) as u64,
        tx_packets: total(stats, Counter::TxPackets) as u64,
        tx_bytes: total(stats, Counter::TxBytes) as u64,
        recycled_packets: total(stats, Counter::RecycledPackets) as u64,
        drop_validation_failed: total(stats, Counter::DropValidationFailed) as u64,
        stat_ipv4: total(stats, Counter::StatIpv4) as u64,
        stat_tcp: total(stats, Counter::StatTcp) as u64,
        stat_http2_data: total(stats, Counter::StatHttp2Data) as u64,
        stat_grpc: total(stats, Counter::StatGrpc) as u64,
        stat_protobuf: total(stats, Counter::StatProtobuf) as u64,
        err_too_small: total(stats, Counter::ErrTooSmall) as u64,
        err_non_ipv4: total(stats, Counter::ErrNonIpv4) as u64,
        err_bad_ip_len: total(stats, Counter::ErrBadIpLen) as u64,
        err_non_tcp: total(stats, Counter::ErrNonTcp) as u64,
        err_bad_ip_csum: total(stats, Counter::ErrBadIpCsum) as u64,
        err_bad_tcp_len: total(stats, Counter::ErrBadTcpLen) as u64,
        err_wrong_port: total(stats, Counter::ErrWrongPort) as u64,
        err_bad_http2: total(stats, Counter::ErrBadHttp2) as u64,
        err_non_http2_data: total(stats, Counter::ErrNonHttp2Data) as u64,
        err_bad_grpc: total(stats, Counter::ErrBadGrpc) as u64,
        err_l4_overflow: total(stats, Counter::ErrL4Overflow) as u64,
        anomaly_invalid_varint: total(stats, Counter::AnomalyInvalidVarint) as u64,
        anomaly_invalid_wire_type: total(stats, Counter::AnomalyInvalidWireType) as u64,
        anomaly_recursion_limit: total(stats, Counter::AnomalyRecursionLimit) as u64,
        anomaly_buffer_underflow: total(stats, Counter::AnomalyBufferUnderflow) as u64,
        anomaly_shape_dim_limit: total(stats, Counter::AnomalyShapeDimLimit) as u64,
        anomaly_shape_val_invalid: total(stats, Counter::AnomalyShapeValInvalid) as u64,
        anomaly_tensor_size_limit: total(stats, Counter::AnomalyTensorSizeLimit) as u64,
        anomaly_invalid_varint_bytes: total(stats, Counter::AnomalyInvalidVarintBytes) as u64,
        hist_payload_0_64: total(stats, Counter::HistPayload064) as u64,
        hist_payload_65_256: total(stats, Counter::HistPayload65256) as u64,
        hist_payload_257_1024: total(stats, Counter::HistPayload2571024) as u64,
        hist_payload_1025_2048: total(stats, Counter::HistPayload10252048) as u64,
        hist_payload_2049_inf: total(stats, Counter::HistPayload2049Inf) as u64,
        hist_latency_100ns: total(stats, Counter::HistLatency100ns) as u64,
        hist_latency_500ns: total(stats, Counter::HistLatency500ns) as u64,
        hist_latency_1us: total(stats, Counter::HistLatency1us) as u64,
        hist_latency_5us: total(stats, Counter::HistLatency5us) as u64,
        hist_latency_10us: total(stats, Counter::HistLatency10us) as u64,
        hist_latency_50us: total(stats, Counter::HistLatency50us) as u64,
        hist_latency_inf: total(stats, Counter::HistLatencyInf) as u64,
        latency_sum_ns: total(stats, Counter::LatencySumNs) as u64,
        latency_count: total(stats, Counter::LatencyCount) as u64,
    }
}

/// The sum of each counter over all workers fits in 64 bits.
pub open spec fn totals_fit(stats: Seq<ThreadStats>) -> bool {
    forall|c: Counter| #[trigger] total(stats, c) <= u64::MAX
}

proof fn total_grows(stats: Seq<ThreadStats>, n: int, counter: Counter)
    requires
        0 <= n <= stats.len(),
    ensures
        0 <= total(stats.take(n), counter) <= total(stats, counter),
    decreases stats.len(),
{
    if n == stats.len() {
        assert(stats.take(n) =~= stats);
        if n > 0 {
            total_grows(stats.drop_last(), n - 1, counter);
        }
    } else {
        assert(stats.drop_last().take(n) =~= stats.take(n));
        total_grows(stats.drop_last(), n, counter);
    }
}

/// Every counter is the field of its name.
pub proof fn fields_are_counters(t: ThreadStats)
    ensures
        t.get(Counter::RxPackets) == t.rx_packets,
        t.get(Counter::RxBytes) == t.rx_bytes,
        t.get(Counter::TxPackets) == t.tx_packets,
        t.get(Counter::TxBytes) == t.tx_bytes,
        t.get(Counter::RecycledPackets) == t.recycled_packets,
        t.get(Counter::DropValidationFailed) == t.drop_validation_failed,
        t.get(Counter::StatIpv4) == t.stat_ipv4,
        t.get(Counter::StatTcp) == t.stat_tcp,
        t.get(Counter::StatHttp2Data) == t.stat_http2_data,
        t.get(Counter::StatGrpc) == t.stat_grpc,
        t.get(Counter::StatProtobuf) == t.stat_protobuf,
        t.get(Counter::ErrTooSmall) == t.err_too_small,
        t.get(Counter::ErrNonIpv4) == t.err_non_ipv4,
        t.get(Counter::ErrBadIpLen) == t.err_bad_ip_len,
        t.get(Counter::ErrNonTcp) == t.err_non_tcp,
        t.get(Counter::ErrBadIpCsum) == t.err_bad_ip_csum,
        t.get(Counter::ErrBadTcpLen) == t.err_bad_tcp_len,
        t.get(Counter::ErrWrongPort) == t.err_wrong_port,
        t.get(Counter::ErrBadHttp2) == t.err_bad_http2,
        t.get(Counter::ErrNonHttp2Data) == t.err_non_http2_data,
        t.get(Counter::ErrBadGrpc) == t.err_bad_grpc,
        t.get(Counter::ErrL4Overflow) == t.err_l4_overflow,
        t.get(Counter::AnomalyInvalidVarint) == t.anomaly_invalid_varint,
        t.get(Counter::AnomalyInvalidWireType) == t.anomaly_invalid_wire_type,
        t.get(Counter::AnomalyRecursionLimit) == t.anomaly_recursion_limit,
        t.get(Counter::AnomalyBufferUnderflow) == t.anomaly_buffer_underflow,
        t.get(Counter::AnomalyShapeDimLimit) == t.anomaly_shape_dim_limit,
        t.get(Counter::AnomalyShapeValInvalid) == t.anomaly_shape_val_invalid,
        t.get(Counter::AnomalyTensorSizeLimit) == t.anomaly_tensor_size_limit,
        t.get(Counter::AnomalyInvalidVarintBytes) == t.anomaly_invalid_varint_bytes,
        t.get(Counter::HistPayload064) == t.hist_payload_0_64,
        t.get(Counter::HistPayload65256) == t.hist_payload_65_256,
        t.get(Counter::HistPayload2571024) == t.hist_payload_257_1024,
        t.get(Counter::HistPayload10252048) == t.hist_payload_1025_2048,
        t.get(Counter::HistPayload2049Inf) == t.hist_payload_2049_inf,
        t.get(Counter::HistLatency100ns) == t.hist_latency_100ns,
        t.get(Counter::HistLatency500ns) == t.hist_latency_500ns,
        t.get(Counter::HistLatency1us) == t.hist_latency_1us,
        t.get(Counter::HistLatency5us) == t.hist_latency_5us,
        t.get(Counter::HistLatency10us) == t.hist_latency_10us,
        t.get(Counter::HistLatency50us) == t.hist_latency_50us,
        t.get(Counter::HistLatencyInf) == t.hist_latency_inf,
        t.get(Counter::LatencySumNs) == t.latency_sum_ns,
        t.get(Counter::LatencyCount) == t.latency_count,
{
}

impl ThreadStats {
    /// Whether both sets of counters can be added up.
    fn fits_with(&self, other: &ThreadStats) -> (yes: bool)
        ensures
            yes == (forall|c: Counter| #[trigger] self.get(c) + other.get(c) <= u64::MAX),
    {
        proof {
            fields_are_counters(*self);
            fields_are_counters(*other);
        }
        self.rx_packets <= u64::MAX - other.rx_packets
            && self.rx_bytes <= u64::MAX - other.rx_bytes
            && self.tx_packets <= u64::MAX - other.tx_packets
            && self.tx_bytes <= u64::MAX - other.tx_bytes
            && self.recycled_packets <= u64::MAX - other.recycled_packets
            && self.drop_validation_failed <= u64::MAX - other.drop_validation_failed
            && self.stat_ipv4 <= u64::MAX - other.stat_ipv4
            && self.stat_tcp <= u64::MAX - other.stat_tcp
            && self.stat_http2_data <= u64::MAX - other.stat_http2_data
            && self.stat_grpc <= u64::MAX - other.stat_grpc
            && self.stat_protobuf <= u64::MAX - other.stat_protobuf
            && self.err_too_small <= u64::MAX - other.err_too_small
            && self.err_non_ipv4 <= u64::MAX - other.err_non_ipv4
            && self.err_bad_ip_len <= u64::MAX - other.err_bad_ip_len
            && self.err_non_tcp <= u64::MAX - other.err_non_tcp
            && self.err_bad_ip_csum <= u64::MAX - other.err_bad_ip_csum
            && self.err_bad_tcp_len <= u64::MAX - other.err_bad_tcp_len
            && self.err_wrong_port <= u64::MAX - other.err_wrong_port
            && self.err_bad_http2 <= u64::MAX - other.err_bad_http2
            && self.err_non_http2_data <= u64::MAX - other.err_non_http2_data
            && self.err_bad_grpc <= u64::MAX - other.err_bad_grpc
            && self.err_l4_overflow <= u64::MAX - other.err_l4_overflow
            && self.anomaly_invalid_varint <= u64::MAX - other.anomaly_invalid_varint
            && self.anomaly_invalid_wire_type <= u64::MAX - other.anomaly_invalid_wire_type
            && self.anomaly_recursion_limit <= u64::MAX - other.anomaly_recursion_limit
            && self.anomaly_buffer_underflow <= u64::MAX - other.anomaly_buffer_underflow
            && self.anomaly_shape_dim_limit <= u64::MAX - other.anomaly_shape_dim_limit
            && self.anomaly_shape_val_invalid <= u64::MAX - other.anomaly_shape_val_invalid
            && self.anomaly_tensor_size_limit <= u64::MAX - other.anomaly_tensor_size_limit
            && self.anomaly_invalid_varint_bytes <= u64::MAX - other.anomaly_invalid_varint_bytes
            && self.hist_payload_0_64 <= u64::MAX - other.hist_payload_0_64
            && self.hist_payload_65_256 <= u64::MAX - other.hist_payload_65_256
            && self.hist_payload_257_1024 <= u64::MAX - other.hist_payload_257_1024
            && self.hist_payload_1025_2048 <= u64::MAX - other.hist_payload_1025_2048
            && self.hist_payload_2049_inf <= u64::MAX - other.hist_payload_2049_inf
            && self.hist_latency_100ns <= u64::MAX - other.hist_latency_100ns
            && self.hist_latency_500ns <= u64::MAX - other.hist_latency_500ns
            && self.hist_latency_1us <= u64::MAX - other.hist_latency_1us
            && self.hist_latency_5us <= u64::MAX - other.hist_latency_5us
            && self.hist_latency_10us <= u64::MAX - other.hist_latency_10us
            && self.hist_latency_50us <= u64::MAX - other.hist_latency_50us
            && self.hist_latency_inf <= u64::MAX - other.hist_latency_inf
            && self.latency_sum_ns <= u64::MAX - other.latency_sum_ns
            && self.latency_count <= u64::MAX - other.latency_count
    }

    /// Both sets of counters, added up.
    fn plus(&self, other: &ThreadStats) -> (sum: ThreadStats)
        requires
            forall|c: Counter| #[trigger] self.get(c) + other.get(c) <= u64::MAX,
        ensures
            forall|c: Counter| #[trigger] sum.get(c) == self.get(c) + other.get(c),
    {
        proof {
            fields_are_counters(*self);
        }
        ThreadStats {
            rx_packets: self.rx_packets + other.rx_packets,
            rx_bytes: self.rx_bytes + other.rx_bytes,
            tx_packets: self.tx_packets + other.tx_packets,
            tx_bytes: self.tx_bytes + other.tx_bytes,
            recycled_packets: self.recycled_packets + other.recycled_packets,
            drop_validation_failed: self.drop_validation_failed + other.drop_validation_failed,
            stat_ipv4: self.stat_ipv4 + other.stat_ipv4,
            stat_tcp: self.stat_tcp + other.stat_tcp,
            stat_http2_data: self.stat_http2_data + other.stat_http2_data,
            stat_grpc: self.stat_grpc + other.stat_grpc,
            stat_protobuf: self.stat_protobuf + other.stat_protobuf,
            err_too_small: self.err_too_small + other.err_too_small,
            err_non_ipv4: self.err_non_ipv4 + other.err_non_ipv4,
            err_bad_ip_len: self.err_bad_ip_len + other.err_bad_ip_len,
            err_non_tcp: self.err_non_tcp + other.err_non_tcp,
            err_bad_ip_csum: self.err_bad_ip_csum + other.err_bad_ip_csum,
            err_bad_tcp_len: self.err_bad_tcp_len + other.err_bad_tcp_len,
            err_wrong_port: self.err_wrong_port + other.err_wrong_port,
            err_bad_http2: self.err_bad_http2 + other.err_bad_http2,
            err_non_http2_data: self.err_non_http2_data + other.err_non_http2_data,
            err_bad_grpc: self.err_bad_grpc + other.err_bad_grpc,
            err_l4_overflow: self.err_l4_overflow + other.err_l4_overflow,
            anomaly_invalid_varint: self.anomaly_invalid_varint + other.anomaly_invalid_varint,
            anomaly_invalid_wire_type: self.anomaly_invalid_wire_type
                + other.anomaly_invalid_wire_type,
            anomaly_recursion_limit: self.anomaly_recursion_limit + other.anomaly_recursion_limit,
            anomaly_buffer_underflow: self.anomaly_buffer_underflow
                + other.anomaly_buffer_underflow,
            anomaly_shape_dim_limit: self.anomaly_shape_dim_limit + other.anomaly_shape_dim_limit,
            anomaly_shape_val_invalid: self.anomaly_shape_val_invalid
                + other.anomaly_shape_val_invalid,
            anomaly_tensor_size_limit: self.anomaly_tensor_size_limit
                + other.anomaly_tensor_size_limit,
            anomaly_invalid_varint_bytes: self.anomaly_invalid_varint_bytes
                + other.anomaly_invalid_varint_bytes,
            hist_payload_0_64: self.hist_payload_0_64 + other.hist_payload_0_64,
            hist_payload_65_256: self.hist_payload_65_256 + other.hist_payload_65_256,
            hist_payload_257_1024: self.hist_payload_257_1024 + other.hist_payload_257_1024,
            hist_payload_1025_2048: self.hist_payload_1025_2048 + other.hist_payload_1025_2048,
            hist_payload_2049_inf: self.hist_payload_2049_inf + other.hist_payload_2049_inf,
            hist_latency_100ns: self.hist_latency_100ns + other.hist_latency_100ns,
            hist_latency_500ns: self.hist_latency_500ns + other.hist_latency_500ns,
            hist_latency_1us: self.hist_latency_1us + other.hist_latency_1us,
            hist_latency_5us: self.hist_latency_5us + other.hist_latency_5us,
            hist_latency_10us: self.hist_latency_10us + other.hist_latency_10us,
            hist_latency_50us: self.hist_latency_50us + other.hist_latency_50us,
            hist_latency_inf: self.hist_latency_inf + other.hist_latency_inf,
            latency_sum_ns: self.latency_sum_ns + other.latency_sum_ns,
            latency_count: self.latency_count + other.latency_count,
        }
    }
}

proof fn is_summed(sum: ThreadStats, stats: Seq<ThreadStats>)
    requires
        forall|c: Counter| #[trigger] sum.get(c) == total(stats, c),
    ensures
        sum == summed(stats),
{
    fields_are_counters(sum);
}

/// Adds up the counters of all workers.
pub fn sum_stats(stats_list: &[ThreadStats]) -> (sum: ThreadStats)
    requires
        totals_fit(stats_list@),
    ensures
        sum == summed(stats_list@),
        forall|c: Counter| #[trigger] sum.get(c) == total(stats_list@, c),
{
    let mut sum: ThreadStats = ThreadStats::default();
    let mut i: usize = 0;
    while i < stats_list.len()
        invariant
            i <= stats_list@.len(),
            totals_fit(stats_list@),
            forall|c: Counter| #[trigger] sum.get(c) == total(stats_list@.take(i as int), c),
        decreases stats_list@.len() - i,
    {
        proof {
            let next = stats_list@.take(i + 1);
            assert(next.drop_last() =~= stats_list@.take(i as int));
            assert forall|c: Counter| #[trigger]
                sum.get(c) + stats_list@[i as int].get(c) <= u64::MAX by {
                total_grows(stats_list@, i + 1, c);
                assert(total(next, c) == total(next.drop_last(), c) + next.last().get(c));
            }
        }
        sum = sum.plus(&stats_list[i]);
        i = i + 1;
    }
    assert(stats_list@.take(i as int) =~= stats_list@);
    proof {
        is_summed(sum, stats_list@);
    }
    sum
}

/// Packets of at most 64, 256, 1024 and 2048 bytes, and all packets.
pub open spec fn payload_buckets(t: ThreadStats) -> Seq<int> {
    let le_64 = t.hist_payload_0_64 as int;
    let le_256 = le_64 + t.hist_payload_65_256;
    let le_1024 = le_256 + t.hist_payload_257_1024;
    let le_2048 = le_1024 + t.hist_payload_1025_2048;
    seq![le_64, le_256, le_1024, le_2048, le_2048 + t.hist_payload_2049_inf]
}

/// Packets that took at most 100 ns, 500 ns, 1 us, 5 us, 10 us and 50 us, and all
/// packets that were timed.
pub open spec fn latency_buckets(t: ThreadStats) -> Seq<int> {
    let le_100ns = t.hist_latency_100ns as int;
    let le_500ns = le_100ns + t.hist_latency_500ns;
    let le_1us = le_500ns + t.hist_latency_1us;
    let le_5us = le_1us + t.hist_latency_5us;
    let le_10us = le_5us + t.hist_latency_10us;
    let le_50us = le_10us + t.hist_latency_50us;
    seq![le_100ns, le_500ns, le_1us, le_5us, le_10us, le_50us, le_50us + t.hist_latency_inf]
}

/// The histograms over all workers fit in 64 bits.
pub open spec fn histograms_fit(stats: Seq<ThreadStats>) -> bool {
    &&& total(stats, Counter::HistPayload064) + total(stats, Counter::HistPayload65256) + total(
        stats,
        Counter::HistPayload2571024,
    ) + total(stats, Counter::HistPayload10252048) + total(stats, Counter::HistPayload2049Inf)
        <= u64::MAX
    &&& total(stats, Counter::HistLatency100ns) + total(stats, Counter::HistLatency500ns) + total(
        stats,
        Counter::HistLatency1us,
    ) + total(stats, Counter::HistLatency5us) + total(stats, Counter::HistLatency10us) + total(
        stats,
        Counter::HistLatency50us,
    ) + total(stats, Counter::HistLatencyInf) <= u64::MAX
}

/// Whether the counters of all workers can be added up, and their histograms too.
pub fn counters_fit(stats_list: &[ThreadStats]) -> (yes: bool)
    ensures
        yes == (totals_fit(stats_list@) && histograms_fit(stats_list@)),
{
    let mut sum: ThreadStats = ThreadStats::default();
    let mut i: usize = 0;
    while i < stats_list.len()
        invariant
            i <= stats_list@.len(),
            forall|c: Counter| #[trigger] sum.get(c) == total(stats_list@.take(i as int), c),
        decreases stats_list@.len() - i,
    {
        let ghost next = stats_list@.take(i + 1);
        assert(next.drop_last() =~= stats_list@.take(i as int));
        if !sum.fits_with(&stats_list[i]) {
            proof {
                let c = choose|c: Counter| #[trigger]
                    sum.get(c) + stats_list@[i as int].get(c) > u64::MAX;
                total_grows(stats_list@, i + 1, c);
                assert(total(next, c) == total(next.drop_last(), c) + next.last().get(c));
            }
            return false;
        }
        sum = sum.plus(&stats_list[i]);
        i = i + 1;
    }
    assert(stats_list@.take(i as int) =~= stats_list@);
    proof {
        fields_are_counters(sum);
        assert forall|c: Counter| #[trigger] total(stats_list@, c) <= u64::MAX by {
            assert(sum.get(c) == total(stats_list@, c));
        }
    }
    let sizes: u128 = sum.hist_payload_0_64 as u128 + sum.hist_payload_65_256 as u128
        + sum.hist_payload_257_1024 as u128 + sum.hist_payload_1025_2048 as u128
        + sum.hist_payload_2049_inf as u128;
    let times: u128 = sum.hist_latency_100ns as u128 + sum.hist_latency_500ns as u128
        + sum.hist_latency_1us as u128 + sum.hist_latency_5us as u128
        + sum.hist_latency_10us as u128 + sum.hist_latency_50us as u128
        + sum.hist_latency_inf as u128;
    sizes <= u64::MAX as u128 && times <= u64::MAX as u128
}

// ---------------------------------------------------------------------------
// Server settings
// ---------------------------------------------------------------------------

/// Settings of the server that gives the metrics out.
#[derive(Clone, Copy, Debug, PartialEq, Eq, Structural)]
pub struct MetricsConfig {
    pub enabled: bool,
    pub port: u16,
}

impl Default for MetricsConfig {
    fn default() -> (config: Self)
        ensures
            config == (MetricsConfig { enabled: true, port: 9090 }),
    {
        MetricsConfig { enabled: true, port: 9090 }
    }
}

/// A server that is running.
#[derive(Clone, Copy, Debug, PartialEq, Eq, Structural)]
pub struct MetricsServerHandle {
    pub port: u16,
}

// ---------------------------------------------------------------------------
// Laws
// ---------------------------------------------------------------------------

/// The upper ends of the buckets for packet sizes; the last has none.
pub open spec fn payload_bounds() -> Seq<int> {
    seq![64, 256, 1024, 2048]
}

/// The upper ends of the buckets for processing times; the last has none.
pub open spec fn latency_bounds() -> Seq<int> {
    seq![100, 500, 1_000, 5_000, 10_000, 50_000]
}

/// Buckets hold no less than those below them.
pub proof fn buckets_never_fall(t: ThreadStats, i: int, j: int)
    ensures
        0 <= i <= j < 5 ==> payload_buckets(t)[i] <= payload_buckets(t)[j],
        0 <= i <= j < 7 ==> latency_buckets(t)[i] <= latency_buckets(t)[j],
{
}

/// A recorded packet raises exactly the buckets whose upper end is not below its
/// size, each by one.
pub proof fn payload_is_counted_once(t: ThreadStats, bytes: int, i: int)
    requires
        0 <= i < 5,
        forall|c: Counter| #[trigger] t.get(c) < u64::MAX,
    ensures
        payload_buckets(t.with_payload(bytes))[i] == payload_buckets(t)[i] + if i == 4 || bytes
            <= payload_bounds()[i] {
            1int
        } else {
            0int
        },
{
    assert(t.get(Counter::HistPayload064) < u64::MAX);
    assert(t.get(Counter::HistPayload65256) < u64::MAX);
    assert(t.get(Counter::HistPayload2571024) < u64::MAX);
    assert(t.get(Counter::HistPayload10252048) < u64::MAX);
    assert(t.get(Counter::HistPayload2049Inf) < u64::MAX);
}

/// A recorded processing time raises exactly the buckets whose upper end is not
/// below it, each by one, and with them the number of packets that were timed.
pub proof fn latency_is_counted_once(t: ThreadStats, nanos: u64, i: int)
    requires
        0 <= i < 7,
        forall|c: Counter| #[trigger] t.get(c) < u64::MAX,
    ensures
        latency_buckets(t.with_latency(nanos))[i] == latency_buckets(t)[i] + if i == 6 || nanos
            <= latency_bounds()[i] {
            1int
        } else {
            0int
        },
        t.latency_count == latency_buckets(t)[6] ==> t.with_latency(nanos).latency_count
            == latency_buckets(t.with_latency(nanos))[6],
{
    assert(t.get(Counter::HistLatency100ns) < u64::MAX);
    assert(t.get(Counter::HistLatency500ns) < u64::MAX);
    assert(t.get(Counter::HistLatency1us) < u64::MAX);
    assert(t.get(Counter::HistLatency5us) < u64::MAX);
    assert(t.get(Counter::HistLatency10us) < u64::MAX);
    assert(t.get(Counter::HistLatency50us) < u64::MAX);
    assert(t.get(Counter::HistLatencyInf) < u64::MAX);
    assert(t.get(Counter::LatencyCount) < u64::MAX);
}

/// A packet counts as dropped exactly where it does not count as valid, and it
/// counts at no layer without counting at the one below.
pub proof fn outcome_is_consistent(outcome: Result<(), ValidationError>)
    ensures
        passed_tcp(outcome) ==> passed_ipv4(outcome),
        passed_http2(outcome) ==> passed_tcp(outcome),
        passed_grpc(outcome) ==> passed_http2(outcome),
        outcome is Ok ==> passed_grpc(outcome),
{
}

/// Every outcome that is not a success raises exactly one of the error counters.
pub proof fn one_error_is_counted(t: ThreadStats, outcome: Result<(), ValidationError>)
    requires
        forall|c: Counter| #[trigger] t.get(c) < u64::MAX,
    ensures
        errors_counted(t.with_outcome(outcome)) == errors_counted(t) + if outcome is Err {
            1int
        } else {
            0int
        },
{
    assert(t.get(Counter::ErrTooSmall) < u64::MAX);
    assert(t.get(Counter::ErrNonIpv4) < u64::MAX);
    assert(t.get(Counter::ErrBadIpLen) < u64::MAX);
    assert(t.get(Counter::ErrNonTcp) < u64::MAX);
    assert(t.get(Counter::ErrBadIpCsum) < u64::MAX);
    assert(t.get(Counter::ErrBadTcpLen) < u64::MAX);
    assert(t.get(Counter::ErrWrongPort) < u64::MAX);
    assert(t.get(Counter::ErrBadHttp2) < u64::MAX);
    assert(t.get(Counter::ErrNonHttp2Data) < u64::MAX);
    assert(t.get(Counter::ErrBadGrpc) < u64::MAX);
    assert(t.get(Counter::ErrL4Overflow) < u64::MAX);
    assert(t.get(Counter::AnomalyInvalidVarint) < u64::MAX);
    assert(t.get(Counter::AnomalyInvalidWireType) < u64::MAX);
    assert(t.get(Counter::AnomalyRecursionLimit) < u64::MAX);
    assert(t.get(Counter::AnomalyBufferUnderflow) < u64::MAX);
    assert(t.get(Counter::AnomalyShapeDimLimit) < u64::MAX);
    assert(t.get(Counter::AnomalyShapeValInvalid) < u64::MAX);
    assert(t.get(Counter::AnomalyTensorSizeLimit) < u64::MAX);
    assert(t.get(Counter::AnomalyInvalidVarintBytes) < u64::MAX);
}

/// All packets that failed to parse or whose payload is not right.
pub open spec fn errors_counted(t: ThreadStats) -> int {
    t.err_too_small + t.err_non_ipv4 + t.err_bad_ip_len + t.err_non_tcp + t.err_bad_ip_csum
        + t.err_bad_tcp_len + t.err_wrong_port + t.err_bad_http2 + t.err_non_http2_data
        + t.err_bad_grpc + t.err_l4_overflow + t.anomaly_invalid_varint
        + t.anomaly_invalid_wire_type + t.anomaly_recursion_limit + t.anomaly_buffer_underflow
        + t.anomaly_shape_dim_limit + t.anomaly_shape_val_invalid + t.anomaly_tensor_size_limit
        + t.anomaly_invalid_varint_bytes
}

/// What is recorded of a packet.
pub enum Recording {
    /// Its size.
    Size(usize),
    /// How many nanoseconds it took.
    Latency(u64),
}

impl ThreadStats {
    /// The counters after a recording.
    pub open spec fn with_recording(self, recording: Recording) -> ThreadStats {
        match recording {
            Recording::Size(bytes) => self.with_payload(bytes as int),
            Recording::Latency(nanos) => self.with_latency(nanos),
        }
    }
}

/// The counters after some recordings and nothing else.
pub open spec fn recorded(run: Seq<Recording>) -> ThreadStats
    decreases run.len(),
{
    if run.len() == 0 {
        ThreadStats::zero()
    } else {
        recorded(run.drop_last()).with_recording(run.last())
    }
}

/// How many sizes were recorded that are not above `bound`, or how many at all.
pub open spec fn sizes_up_to(run: Seq<Recording>, bound: Option<int>) -> int
    decreases run.len(),
{
    if run.len() == 0 {
        0
    } else {
        sizes_up_to(run.drop_last(), bound) + match run.last() {
            Recording::Size(bytes) => if bound is None || bytes <= bound->0 {
                1int
            } else {
                0
            },
            _ => 0,
        }
    }
}

/// How many processing times were recorded that are not above `bound`, or how many
/// at all.
pub open spec fn latencies_up_to(run: Seq<Recording>, bound: Option<int>) -> int
    decreases run.len(),
{
    if run.len() == 0 {
        0
    } else {
        latencies_up_to(run.drop_last(), bound) + match run.last() {
            Recording::Latency(nanos) => if bound is None || nanos <= bound->0 {
                1int
            } else {
                0
            },
            _ => 0,
        }
    }
}

/// The upper end of a bucket for packet sizes; none for the last.
pub open spec fn payload_bound(i: int) -> Option<int> {
    if i < payload_bounds().len() {
        Some(payload_bounds()[i])
    } else {
        None
    }
}

/// The upper end of a bucket for processing times; none for the last.
pub open spec fn latency_bound(i: int) -> Option<int> {
    if i < latency_bounds().len() {
        Some(latency_bounds()[i])
    } else {
        None
    }
}

/// No more is counted than was recorded.
proof fn counts_are_bounded(run: Seq<Recording>, bound: Option<int>)
    ensures
        0 <= sizes_up_to(run, bound) <= run.len(),
        0 <= latencies_up_to(run, bound) <= run.len(),
    decreases run.len(),
{
    if run.len() > 0 {
        counts_are_bounded(run.drop_last(), bound);
    }
}

/// Each bucket of a worker holds as many packets as were recorded at or below its
/// upper end, and the number of packets that were timed is that of the recordings.
pub proof fn buckets_count_a_run(run: Seq<Recording>)
    requires
        run.len() <= u64::MAX,
    ensures
        forall|i: int|
            0 <= i < 5 ==> #[trigger] payload_buckets(recorded(run))[i] == sizes_up_to(
                run,
                payload_bound(i),
            ),
        forall|i: int|
            0 <= i < 7 ==> #[trigger] latency_buckets(recorded(run))[i] == latencies_up_to(
                run,
                latency_bound(i),
            ),
        recorded(run).latency_count == latencies_up_to(run, None),
    decreases run.len(),
{
    if run.len() > 0 {
        let before = run.drop_last();
        let t = recorded(before);
        buckets_count_a_run(before);
        counts_are_bounded(before, None);
        assert(payload_buckets(t)[4] == sizes_up_to(before, payload_bound(4)));
        assert(latency_buckets(t)[6] == latencies_up_to(before, latency_bound(6)));
        assert forall|i: int| 0 <= i < 5 implies #[trigger] payload_buckets(recorded(run))[i]
            == sizes_up_to(run, payload_bound(i)) by {
            assert(payload_buckets(t)[i] == sizes_up_to(before, payload_bound(i)));
        }
        assert forall|i: int| 0 <= i < 7 implies #[trigger] latency_buckets(recorded(run))[i]
            == latencies_up_to(run, latency_bound(i)) by {
            assert(latency_buckets(t)[i] == latencies_up_to(before, latency_bound(i)));
        }
    }
}

/// How many sizes all workers recorded that are not above `bound`, or how many at
/// all.
pub open spec fn all_sizes_up_to(runs: Seq<Seq<Recording>>, bound: Option<int>) -> int
    decreases runs.len(),
{
    if runs.len() == 0 {
        0
    } else {
        all_sizes_up_to(runs.drop_last(), bound) + sizes_up_to(runs.last(), bound)
    }
}

/// How many processing times all workers recorded that are not above `bound`, or
/// how many at all.
pub open spec fn all_latencies_up_to(runs: Seq<Seq<Recording>>, bound: Option<int>) -> int
    decreases runs.len(),
{
    if runs.len() == 0 {
        0
    } else {
        all_latencies_up_to(runs.drop_last(), bound) + latencies_up_to(runs.last(), bound)
    }
}

/// Number of recordings of all workers.
pub open spec fn recordings(runs: Seq<Seq<Recording>>) -> int
    decreases runs.len(),
{
    if runs.len() == 0 {
        0
    } else {
        recordings(runs.drop_last()) + runs.last().len()
    }
}

/// The counters of each worker are those of its recordings.
pub open spec fn all_recorded(stats: Seq<ThreadStats>, runs: Seq<Seq<Recording>>) -> bool {
    &&& stats.len() == runs.len()
    &&& forall|i: int| 0 <= i < stats.len() ==> #[trigger] stats[i] == recorded(runs[i])
}

/// Sum of the first `i + 1` classes of packet sizes over all workers.
spec fn size_total(stats: Seq<ThreadStats>, i: int) -> int {
    let c0 = total(stats, Counter::HistPayload064);
    let c1 = c0 + total(stats, Counter::HistPayload65256);
    let c2 = c1 + total(stats, Counter::HistPayload2571024);
    let c3 = c2 + total(stats, Counter::HistPayload10252048);
    seq![c0, c1, c2, c3, c3 + total(stats, Counter::HistPayload2049Inf)][i]
}

/// Sum of the first `i + 1` classes of processing times over all workers.
spec fn latency_total(stats: Seq<ThreadStats>, i: int) -> int {
    let c0 = total(stats, Counter::HistLatency100ns);
    let c1 = c0 + total(stats, Counter::HistLatency500ns);
    let c2 = c1 + total(stats, Counter::HistLatency1us);
    let c3 = c2 + total(stats, Counter::HistLatency5us);
    let c4 = c3 + total(stats, Counter::HistLatency10us);
    let c5 = c4 + total(stats, Counter::HistLatency50us);
    seq![c0, c1, c2, c3, c4, c5, c5 + total(stats, Counter::HistLatencyInf)][i]
}

proof fn totals_count_runs(stats: Seq<ThreadStats>, runs: Seq<Seq<Recording>>)
    requires
        all_recorded(stats, runs),
        recordings(runs) <= u64::MAX,
    ensures
        forall|i: int|
            0 <= i < 5 ==> #[trigger] size_total(stats, i) == all_sizes_up_to(
                runs,
                payload_bound(i),
            ),
        forall|i: int|
            0 <= i < 7 ==> #[trigger] latency_total(stats, i) == all_latencies_up_to(
                runs,
                latency_bound(i),
            ),
        total(stats, Counter::LatencyCount) == all_latencies_up_to(runs, None),
        0 <= all_sizes_up_to(runs, None) <= recordings(runs),
        0 <= all_latencies_up_to(runs, None) <= recordings(runs),
        0 <= recordings(runs),
    decreases stats.len(),
{
    if stats.len() > 0 {
        let t = stats.last();
        let run = runs.last();
        recordings_not_negative(runs.drop_last());
        totals_count_runs(stats.drop_last(), runs.drop_last());
        assert(t == recorded(run)) by {
            assert(stats[stats.len() - 1] == recorded(runs[stats.len() - 1]));
        }
        buckets_count_a_run(run);
        counts_are_bounded(run, None);
        assert forall|i: int| 0 <= i < 5 implies #[trigger] size_total(stats, i)
            == all_sizes_up_to(runs, payload_bound(i)) by {
            assert(size_total(stats.drop_last(), i) == all_sizes_up_to(
                runs.drop_last(),
                payload_bound(i),
            ));
            assert(payload_buckets(t)[i] == sizes_up_to(run, payload_bound(i)));
            assert(size_total(stats, i) == size_total(stats.drop_last(), i)
                + payload_buckets(t)[i]);
        }
        assert forall|i: int| 0 <= i < 7 implies #[trigger] latency_total(stats, i)
            == all_latencies_up_to(runs, latency_bound(i)) by {
            assert(latency_total(stats.drop_last(), i) == all_latencies_up_to(
                runs.drop_last(),
                latency_bound(i),
            ));
            assert(latency_buckets(t)[i] == latencies_up_to(run, latency_bound(i)));
            assert(latency_total(stats, i) == latency_total(stats.drop_last(), i)
                + latency_buckets(t)[i]);
        }
    }
}

proof fn recordings_not_negative(runs: Seq<Seq<Recording>>)
    ensures
        0 <= recordings(runs),
    decreases runs.len(),
{
    if runs.len() > 0 {
        recordings_not_negative(runs.drop_last());
    }
}

/// Each bucket over all workers holds as many packets as they recorded at or below
/// its upper end. The last bucket holds all recordings of its kind, and so does the
/// number of packets that were timed.
pub proof fn buckets_count_all_runs(stats: Seq<ThreadStats>, runs: Seq<Seq<Recording>>)
    requires
        all_recorded(stats, runs),
        recordings(runs) <= u64::MAX,
    ensures
        forall|i: int|
            0 <= i < 5 ==> #[trigger] payload_buckets(summed(stats))[i] == all_sizes_up_to(
                runs,
                payload_bound(i),
            ),
        forall|i: int|
            0 <= i < 7 ==> #[trigger] latency_buckets(summed(stats))[i] == all_latencies_up_to(
                runs,
                latency_bound(i),
            ),
        summed(stats).latency_count == all_latencies_up_to(runs, None),
        all_sizes_up_to(runs, None) <= u64::MAX,
        all_latencies_up_to(runs, None) <= u64::MAX,
{
    totals_count_runs(stats, runs);
    let whole = stats.len() as int;
    assert(stats.take(whole) =~= stats);
    assert(size_total(stats, 4) == all_sizes_up_to(runs, payload_bound(4)));
    assert(latency_total(stats, 6) == all_latencies_up_to(runs, latency_bound(6)));
    total_grows(stats, whole, Counter::HistPayload064);
    total_grows(stats, whole, Counter::HistPayload65256);
    total_grows(stats, whole, Counter::HistPayload2571024);
    total_grows(stats, whole, Counter::HistPayload10252048);
    total_grows(stats, whole, Counter::HistPayload2049Inf);
    total_grows(stats, whole, Counter::HistLatency100ns);
    total_grows(stats, whole, Counter::HistLatency500ns);
    total_grows(stats, whole, Counter::HistLatency1us);
    total_grows(stats, whole, Counter::HistLatency5us);
    total_grows(stats, whole, Counter::HistLatency10us);
    total_grows(stats, whole, Counter::HistLatency50us);
    total_grows(stats, whole, Counter::HistLatencyInf);
    assert forall|i: int| 0 <= i < 5 implies #[trigger] payload_buckets(summed(stats))[i]
        == all_sizes_up_to(runs, payload_bound(i)) by {
        assert(size_total(stats, i) == all_sizes_up_to(runs, payload_bound(i)));
    }
    assert forall|i: int| 0 <= i < 7 implies #[trigger] latency_buckets(summed(stats))[i]
        == all_latencies_up_to(runs, latency_bound(i)) by {
        assert(latency_total(stats, i) == all_latencies_up_to(runs, latency_bound(i)));
    }
}

/// The sum of a counter over two lists of workers is that over both together.
pub proof fn totals_add_up(a: Seq<ThreadStats>, b: Seq<ThreadStats>, counter: Counter)
    ensures
        total(a + b, counter) == total(a, counter) + total(b, counter),
        0 <= total(a, counter),
    decreases b.len(),
{
    assert(a.take(a.len() as int) =~= a);
    total_grows(a, a.len() as int, counter);
    if b.len() == 0 {
        assert(a + b =~= a);
    } else {
        assert((a + b).drop_last() =~= a + b.drop_last());
        totals_add_up(a, b.drop_last(), counter);
    }
}

/// The counters and buckets of two lists of workers add up to those of both
/// together.
pub proof fn joined_workers_add_up(a: Seq<ThreadStats>, b: Seq<ThreadStats>)
    requires
        totals_fit(a + b),
    ensures
        totals_fit(a),
        totals_fit(b),
        forall|c: Counter| #[trigger]
            summed(a + b).get(c) == summed(a).get(c) + summed(b).get(c),
        forall|i: int|
            0 <= i < 5 ==> #[trigger] payload_buckets(summed(a + b))[i] == payload_buckets(
                summed(a),
            )[i] + payload_buckets(summed(b))[i],
        forall|i: int|
            0 <= i < 7 ==> #[trigger] latency_buckets(summed(a + b))[i] == latency_buckets(
                summed(a),
            )[i] + latency_buckets(summed(b))[i],
{
    assert forall|c: Counter|
        total(a + b, c) == total(a, c) + total(b, c) && 0 <= #[trigger] total(a, c) && 0 <= total(
            b,
            c,
        ) && total(a + b, c) <= u64::MAX by {
        totals_add_up(a, b, c);
        totals_add_up(b, a, c);
    }
    assert forall|c: Counter| #[trigger] total(b, c) <= u64::MAX by {
        assert(0 <= total(a, c));
    }
    summed_gets(a);
    summed_gets(b);
    summed_gets(a + b);
    assert forall|c: Counter| #[trigger] summed(a + b).get(c) == summed(a).get(c) + summed(b).get(
        c,
    ) by {
        assert(0 <= total(a, c));
    }
    fields_are_counters(summed(a));
    fields_are_counters(summed(b));
    fields_are_counters(summed(a + b));
}

/// The counters that were added up are the sums.
pub proof fn summed_gets(stats: Seq<ThreadStats>)
    requires
        totals_fit(stats),
    ensures
        forall|c: Counter| #[trigger] summed(stats).get(c) == total(stats, c),
{
    let whole = stats.len() as int;
    assert(stats.take(whole) =~= stats);
    assert forall|c: Counter| #[trigger] summed(stats).get(c) == total(stats, c) by {
        total_grows(stats, whole, c);
        assert(total(stats, c) <= u64::MAX);
    }
}

/// The counters of a single worker are the sums over it alone.
pub proof fn single_worker_is_its_sum(t: ThreadStats, counter: Counter)
    ensures
        total(seq![t], counter) == t.get(counter),
{
    assert(seq![t].drop_last() =~= Seq::<ThreadStats>::empty());
    assert(total(Seq::<ThreadStats>::empty(), counter) == 0);
}

/// How many of the five layers a packet with this outcome turned out to have: IPv4,
/// TCP, an HTTP/2 DATA frame, a gRPC message, and a valid payload.
pub open spec fn layers_found(outcome: Result<(), ValidationError>) -> int {
    match outcome {
        Ok(_) => 5,
        Err(ValidationError::Proto(_)) => 4,
        Err(ValidationError::Parse(e)) => match e {
            ParseError::BufferTooSmall | ParseError::NonIPv4 | ParseError::BadIpHdrLen => 0,
            ParseError::NonTCP | ParseError::BadIpChecksum => 1,
            ParseError::BadTcpHdrLen
            | ParseError::WrongPort
            | ParseError::BadHttp2Hdr
            | ParseError::NonHttp2Data => 2,
            ParseError::BadGrpcHdr | ParseError::PayloadOverflow => 3,
        },
    }
}

/// The counter that stands for what a packet failed on.
pub open spec fn error_counter(e: ValidationError) -> Counter {
    match e {
        ValidationError::Parse(e) => match e {
            ParseError::BufferTooSmall => Counter::ErrTooSmall,
            ParseError::NonIPv4 => Counter::ErrNonIpv4,
            ParseError::BadIpHdrLen => Counter::ErrBadIpLen,
            ParseError::NonTCP => Counter::ErrNonTcp,
            ParseError::BadIpChecksum => Counter::ErrBadIpCsum,
            ParseError::BadTcpHdrLen => Counter::ErrBadTcpLen,
            ParseError::WrongPort => Counter::ErrWrongPort,
            ParseError::BadHttp2Hdr => Counter::ErrBadHttp2,
            ParseError::NonHttp2Data => Counter::ErrNonHttp2Data,
            ParseError::BadGrpcHdr => Counter::ErrBadGrpc,
            ParseError::PayloadOverflow => Counter::ErrL4Overflow,
        },
        ValidationError::Proto(e) => match e {
            ProtoError::InvalidVarint => Counter::AnomalyInvalidVarint,
            ProtoError::InvalidWireType => Counter::AnomalyInvalidWireType,
            ProtoError::RecursionLimit => Counter::AnomalyRecursionLimit,
            ProtoError::BufferUnderflow => Counter::AnomalyBufferUnderflow,
            ProtoError::ShapeDimensionLimit => Counter::AnomalyShapeDimLimit,
            ProtoError::ShapeValueInvalid => Counter::AnomalyShapeValInvalid,
            ProtoError::TensorSizeLimit => Counter::AnomalyTensorSizeLimit,
            ProtoError::InvalidVarintBytes => Counter::AnomalyInvalidVarintBytes,
        },
    }
}

/// The outcome of a validation raises, by one each, the counters of the layers that
/// the packet turned out to have, and for a failure the counter of dropped packets and
/// the one for what it failed on. No other counter changes.
pub proof fn outcome_raises_its_counters(
    t: ThreadStats,
    outcome: Result<(), ValidationError>,
    c: Counter,
)
    requires
        t.get(c) < u64::MAX,
    ensures
        t.with_outcome(outcome).get(c) == t.get(c) + if (match c {
            Counter::StatIpv4 => layers_found(outcome) >= 1,
            Counter::StatTcp => layers_found(outcome) >= 2,
            Counter::StatHttp2Data => layers_found(outcome) >= 3,
            Counter::StatGrpc => layers_found(outcome) >= 4,
            Counter::StatProtobuf => layers_found(outcome) >= 5,
            Counter::DropValidationFailed => outcome is Err,
            _ => outcome is Err && error_counter(outcome->Err_0) == c,
        }) {
            1int
        } else {
            0int
        },
{
}

/// Recording a size changes nothing but the histogram of sizes; recording a time
/// changes nothing but the histogram of times, their number, which grows by one, and
/// their sum, which grows by the time.
pub proof fn recordings_change_nothing_else(t: ThreadStats, bytes: int, nanos: u64, c: Counter)
    ensures
        !(c is HistPayload064 || c is HistPayload65256 || c is HistPayload2571024
            || c is HistPayload10252048 || c is HistPayload2049Inf) ==> t.with_payload(bytes).get(c)
            == t.get(c),
        !(c is HistLatency100ns || c is HistLatency500ns || c is HistLatency1us
            || c is HistLatency5us || c is HistLatency10us || c is HistLatency50us
            || c is HistLatencyInf || c is LatencySumNs || c is LatencyCount) ==> t.with_latency(
            nanos,
        ).get(c) == t.get(c),
        t.latency_sum_ns + nanos <= u64::MAX ==> t.with_latency(nanos).latency_sum_ns
            == t.latency_sum_ns + nanos,
        t.latency_count < u64::MAX ==> t.with_latency(nanos).latency_count == t.latency_count + 1,
{
}

} // verus!
