//! What happens to a packet that was received: it is counted, checked, and either
//! sent on or given back.
use crate::bench::outcome_of;
use crate::common::{macs_swapped, swap_macs, OperationMode};
use crate::grpc;
use crate::grpc::{parse_grpc_packet, ParseError};
use crate::metrics::{bump_if, Counter, ThreadStats};
use crate::protobuf;
use crate::protobuf::{validate_grpc_protobuf_packet, ValidationConfig, ValidationError};
use vstd::prelude::*;

verus! {

/// What becomes of a packet.
#[derive(Clone, Copy, Debug, PartialEq, Eq, Structural)]
pub enum Verdict {
    /// It is sent on.
    Transmit,
    /// Its frame is given back, and the packet is gone.
    Recycle,
}

/// A packet as it is sent on: in echo mode to where it came from.
pub open spec fn sent_on(buf: Seq<u8>, mode: OperationMode) -> Seq<u8> {
    if mode == OperationMode::Echo {
        macs_swapped(buf)
    } else {
        buf
    }
}

impl ThreadStats {
    /// The counters after the bytes of a packet were counted.
    pub open spec fn with_bytes(self, bytes: int) -> ThreadStats {
        ThreadStats { rx_bytes: self.rx_bytes.wrapping_add(bytes as u64), ..self }
    }

    /// The counters after a packet was put in the histogram of the packet loop,
    /// which has no class above 1024 bytes.
    pub open spec fn with_size(self, bytes: int) -> ThreadStats {
        ThreadStats {
            hist_payload_0_64: bump_if(self.hist_payload_0_64, bytes <= 64),
            hist_payload_65_256: bump_if(self.hist_payload_65_256, 64 < bytes <= 256),
            hist_payload_257_1024: bump_if(self.hist_payload_257_1024, 256 < bytes <= 1024),
            hist_payload_1025_2048: bump_if(self.hist_payload_1025_2048, 1024 < bytes),
            ..self
        }
    }

    /// The counters after the outcome of parsing the headers was recorded. A
    /// payload that nobody looked at does not count as valid.
    pub open spec fn with_headers(self, error: Option<ParseError>) -> ThreadStats {
        match error {
            Some(e) => self.with_outcome(Err(ValidationError::Parse(e))),
            None => ThreadStats {
                stat_protobuf: self.stat_protobuf,
                ..self.with_outcome(Ok(()))
            },
        }
    }

    /// Counts the bytes of a packet.
    pub fn record_bytes(&mut self, bytes: usize)
        ensures
            *final(self) == old(self).with_bytes(bytes as int),
    {
        self.rx_bytes = self.rx_bytes.wrapping_add(bytes as u64);
    }

    /// Puts a packet in the histogram of the packet loop.
    pub fn record_size(&mut self, bytes: usize)
        ensures
            *final(self) == old(self).with_size(bytes as int),
    {
        if bytes <= 64 {
            self.hist_payload_0_64 = self.hist_payload_0_64.wrapping_add(1);
        } else if bytes <= 256 {
            self.hist_payload_65_256 = self.hist_payload_65_256.wrapping_add(1);
        } else if bytes <= 1024 {
            self.hist_payload_257_1024 = self.hist_payload_257_1024.wrapping_add(1);
        } else {
            self.hist_payload_1025_2048 = self.hist_payload_1025_2048.wrapping_add(1);
        }
    }

    /// Records the outcome of parsing the headers.
    pub fn record_headers(&mut self, error: Option<ParseError>)
        ensures
            *final(self) == old(self).with_headers(error),
    {
        match error {
            Some(e) => self.record_outcome(Err(ValidationError::Parse(e))),
            None => {
                let protobuf: u64 = self.stat_protobuf;
                self.record_outcome(Ok(()));
                self.stat_protobuf = protobuf;
            },
        }
    }
}

/// Prepares a packet that is sent on without a check.
pub fn relay_packet(stats: &mut ThreadStats, buf: &mut [u8], mode: OperationMode)
    ensures
        *final(stats) == old(stats).with_bytes(old(buf)@.len() as int),
        final(buf)@ == sent_on(old(buf)@, mode),
{
    stats.record_bytes(buf.len());
    if mode == OperationMode::Echo {
        swap_macs(buf);
    }
}

/// Checks the headers of a packet; returns the error, if there is one.
pub fn inspect_headers(stats: &mut ThreadStats, buf: &[u8], target_port: u16) -> (error: Option<
    ParseError,
>)
    ensures
        error == grpc::parse_error(buf@, target_port),
        *final(stats) == old(stats).with_bytes(buf@.len() as int).with_headers(error),
{
    stats.record_bytes(buf.len());
    let error: Option<ParseError> = match parse_grpc_packet(buf, target_port) {
        Ok(_) => None,
        Err(e) => Some(e),
    };
    stats.record_headers(error);
    error
}

/// What becomes of a packet whose headers were checked. One that is in order is
/// sent on, unless it was chosen to be dropped, which is counted.
pub fn settle_packet(
    buf: &mut [u8],
    mode: OperationMode,
    error: Option<ParseError>,
    dropped: bool,
    drop_simulated: &mut u64,
) -> (verdict: Verdict)
    ensures
        verdict == if error is None && !dropped {
            Verdict::Transmit
        } else {
            Verdict::Recycle
        },
        final(buf)@ == if verdict == Verdict::Transmit {
            sent_on(old(buf)@, mode)
        } else {
            old(buf)@
        },
        *final(drop_simulated) == bump_if(*old(drop_simulated), error is None && dropped),
        error is Some ==> verdict == Verdict::Recycle && *final(drop_simulated) == *old(
            drop_simulated,
        ),
        dropped ==> verdict == Verdict::Recycle,
        verdict == Verdict::Recycle ==> final(buf)@ == old(buf)@,
        verdict == Verdict::Transmit ==> *final(drop_simulated) == *old(drop_simulated),
{
    if error.is_some() {
        return Verdict::Recycle;
    }
    if dropped {
        *drop_simulated = (*drop_simulated).wrapping_add(1);
        return Verdict::Recycle;
    }
    if mode == OperationMode::Echo {
        swap_macs(buf);
    }
    Verdict::Transmit
}

/// The counters after a packet was received and validated.
pub open spec fn inspected_stats(
    stats: ThreadStats,
    packet: Seq<u8>,
    config: ValidationConfig,
) -> ThreadStats {
    stats.with_bytes(packet.len() as int).with_size(packet.len() as int).with_outcome(
        outcome_of(packet, config),
    )
}

/// What becomes of a packet that is validated: it is sent on if and only if it is
/// valid.
pub open spec fn inspected_verdict(packet: Seq<u8>, config: ValidationConfig) -> Verdict {
    if protobuf::validation_error(packet, config) is None {
        Verdict::Transmit
    } else {
        Verdict::Recycle
    }
}

/// A packet after it was validated: ready to be sent on, or as it was.
pub open spec fn inspected_packet(
    packet: Seq<u8>,
    config: ValidationConfig,
    mode: OperationMode,
) -> Seq<u8> {
    if inspected_verdict(packet, config) == Verdict::Transmit {
        sent_on(packet, mode)
    } else {
        packet
    }
}

/// Validates a packet, counts the outcome, and prepares a valid packet to be sent
/// on.
pub fn inspect_packet(
    stats: &mut ThreadStats,
    buf: &mut [u8],
    config: &ValidationConfig,
    mode: OperationMode,
) -> (verdict: Verdict)
    ensures
        *final(stats) == inspected_stats(*old(stats), old(buf)@, *config),
        final(buf)@ == inspected_packet(old(buf)@, *config, mode),
        verdict == inspected_verdict(old(buf)@, *config),
{
    stats.record_bytes(buf.len());
    stats.record_size(buf.len());
    match validate_grpc_protobuf_packet(buf, config) {
        Ok(_) => {
            stats.record_outcome(Ok(()));
            if mode == OperationMode::Echo {
                swap_macs(buf);
            }
            Verdict::Transmit
        },
        Err(e) => {
            stats.record_outcome(Err(e));
            Verdict::Recycle
        },
    }
}

// ---------------------------------------------------------------------------
// Laws
// ---------------------------------------------------------------------------

/// A packet that is not valid is never sent on, its bytes stay as they are, and
/// it is counted as dropped.
pub proof fn invalid_packet_is_dropped(
    stats: ThreadStats,
    packet: Seq<u8>,
    config: ValidationConfig,
    mode: OperationMode,
)
    requires
        protobuf::validation_error(packet, config) is Some,
    ensures
        inspected_verdict(packet, config) == Verdict::Recycle,
        inspected_packet(packet, config, mode) == packet,
        inspected_stats(stats, packet, config).drop_validation_failed
            == stats.drop_validation_failed.wrapping_add(1),
        inspected_stats(stats, packet, config).stat_protobuf == stats.stat_protobuf,
{
}

/// A packet that is sent on stays as it is, byte for byte, but in echo mode: there
/// the two addresses change places, where the packet is long enough to have them.
pub proof fn sent_packet_byte_by_byte(packet: Seq<u8>, mode: OperationMode, i: int)
    requires
        0 <= i < packet.len(),
    ensures
        sent_on(packet, mode).len() == packet.len(),
        sent_on(packet, mode)[i] == if mode != OperationMode::Echo || packet.len() < 12 {
            packet[i]
        } else if i < 6 {
            packet[i + 6]
        } else if i < 12 {
            packet[i - 6]
        } else {
            packet[i]
        },
{
}

/// A packet that is sent on keeps its length and everything behind its Ethernet
/// addresses.
pub proof fn sent_packet_keeps_its_payload(packet: Seq<u8>, mode: OperationMode, i: int)
    requires
        12 <= i < packet.len(),
    ensures
        sent_on(packet, mode).len() == packet.len(),
        sent_on(packet, mode)[i] == packet[i],
{
}

/// A valid packet is sent on, and it is counted as valid and not as dropped.
pub proof fn valid_packet_is_sent_on(
    stats: ThreadStats,
    packet: Seq<u8>,
    config: ValidationConfig,
    mode: OperationMode,
)
    requires
        protobuf::validation_error(packet, config) is None,
        stats.stat_protobuf < u64::MAX,
    ensures
        inspected_verdict(packet, config) == Verdict::Transmit,
        inspected_packet(packet, config, mode) == sent_on(packet, mode),
        inspected_stats(stats, packet, config).drop_validation_failed
            == stats.drop_validation_failed,
        inspected_stats(stats, packet, config).stat_protobuf == stats.stat_protobuf + 1,
{
}

/// Counting the bytes of a packet adds them to those received and changes no other
/// counter. Putting it in the histogram raises the counter of its class by one and
/// changes no other. Its outcome changes neither.
pub proof fn received_packet_is_counted(
    stats: ThreadStats,
    packet: Seq<u8>,
    config: ValidationConfig,
    c: Counter,
)
    requires
        stats.rx_bytes + packet.len() <= u64::MAX,
        stats.get(c) < u64::MAX,
    ensures
        ({
            let n = packet.len() as int;
            &&& stats.with_bytes(n).get(c) == stats.get(c) + if c is RxBytes {
                n
            } else {
                0
            }
            &&& stats.with_size(n).get(c) == stats.get(c) + if c == size_class(n) {
                1int
            } else {
                0int
            }
            &&& c is RxBytes || c == size_class(n) ==> stats.with_outcome(
                outcome_of(packet, config),
            ).get(c) == stats.get(c)
            &&& inspected_stats(stats, packet, config).rx_bytes == stats.rx_bytes + n
        }),
{
}

/// The class of a packet in the histogram of the packet loop.
pub open spec fn size_class(bytes: int) -> Counter {
    if bytes > 1024 {
        Counter::HistPayload10252048
    } else if bytes > 256 {
        Counter::HistPayload2571024
    } else if bytes > 64 {
        Counter::HistPayload65256
    } else {
        Counter::HistPayload064
    }
}

/// Where only the headers are checked, a packet counts as it does where it is
/// validated, but none counts as one with a valid payload.
pub proof fn headers_count_like_outcomes(stats: ThreadStats, error: Option<ParseError>, c: Counter)
    requires
        stats.get(c) < u64::MAX,
    ensures
        c is StatProtobuf ==> stats.with_headers(error).get(c) == stats.get(c),
        !(c is StatProtobuf) ==> stats.with_headers(error).get(c) == stats.with_outcome(
            match error {
                Some(e) => Err(ValidationError::Parse(e)),
                None => Ok(()),
            },
        ).get(c),
{
}

/// The outcome of a packet is a success exactly where nothing is wrong with it, and
/// otherwise what is wrong.
pub proof fn outcome_is_the_error(packet: Seq<u8>, config: ValidationConfig)
    ensures
        outcome_of(packet, config) is Ok <==> protobuf::validation_error(packet, config) is None,
        outcome_of(packet, config) matches Err(e) ==> protobuf::validation_error(packet, config)
            == Some(e),
{
}

} // verus!
