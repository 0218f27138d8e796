//! A worker without privileges: a daemon sets the rings up and hands them over,
//! and the worker validates packets on them.
use crate::common::{swap_macs, OperationMode};
use crate::inspect::inspected_packet;
use crate::protobuf;
use crate::protobuf::{validate_grpc_protobuf_packet, ValidationConfig};
use crate::text;
use crate::text::decimal_text;
use crate::tx::FrameDesc;
use vstd::prelude::*;

verus! {

// ---------------------------------------------------------------------------
// Handing over
// ---------------------------------------------------------------------------

/// Receives the socket from the daemon. There is no such thing yet.
pub fn receive_socket_fd(_socket_path: &str) -> (r: Result<i32, String>)
    ensures
        r is Err && r->Err_0@ == "Not implemented"@,
{
    Err("Not implemented".to_owned())
}

/// Users that a worker may run as: root, the worker's own and nobody.
pub open spec fn trusted_user(uid: u32) -> bool {
    uid == 0 || uid == 10001 || uid == 65534
}

/// Checks the user that a worker runs as.
pub fn check_peer(uid: u32) -> (r: Result<(), String>)
    ensures
        r is Ok <==> trusted_user(uid),
        r is Err ==> r->Err_0@ == "Unauthorized peer connection from UID "@ + text::decimal(
            uid as nat,
        ),
{
    if uid != 0 && uid != 10001 && uid != 65534 {
        let mut m: String = "Unauthorized peer connection from UID ".to_owned();
        m.append(decimal_text(uid as u64).as_str());
        return Err(m);
    }
    Ok(())
}

/// Checks how many descriptors came from the daemon: the socket and the packet
/// buffer are two.
pub fn check_descriptors(count: usize) -> (r: Result<(), String>)
    ensures
        r is Ok <==> count >= 2,
        r is Err ==> r->Err_0@
            == "Failed to receive both socket and memfd file descriptors"@,
{
    if count < 2 {
        Err("Failed to receive both socket and memfd file descriptors".to_owned())
    } else {
        Ok(())
    }
}

/// What the daemon tells a worker.
#[derive(Clone, Debug)]
pub struct WorkerConfig {
    /// Number of frames in the packet buffer.
    pub frame_count: u32,
    /// Bytes of a frame.
    pub frame_size: u32,
    /// Slots of the receive ring.
    pub rx_size: u32,
    /// Slots of the transmit ring.
    pub tx_size: u32,
    /// Slots of the fill ring.
    pub fill_size: u32,
    /// Slots of the completion ring.
    pub comp_size: u32,
    /// Queue of the interface.
    pub queue_id: u32,
    /// Name of the mode.
    pub mode: String,
    /// Destination port of the traffic to inspect.
    pub target_port: u16,
}

impl WorkerConfig {
    /// Every ring has a slot for each frame, and packets are sent on.
    pub fn for_rings(frame_count: u32, frame_size: u32, queue_id: u32, target_port: u16) -> (config:
        Self)
        ensures
            config.frame_count == frame_count,
            config.frame_size == frame_size,
            config.rx_size == frame_count,
            config.tx_size == frame_count,
            config.fill_size == frame_count,
            config.comp_size == frame_count,
            config.queue_id == queue_id,
            config.mode@ == "forward"@,
            config.target_port == target_port,
    {
        WorkerConfig {
            frame_count,
            frame_size,
            rx_size: frame_count,
            tx_size: frame_count,
            fill_size: frame_count,
            comp_size: frame_count,
            queue_id,
            mode: "forward".to_owned(),
            target_port,
        }
    }

    /// Bytes of the packet buffer.
    pub fn umem_size(&self) -> (size: u32)
        requires
            self.frame_count * self.frame_size <= u32::MAX,
        ensures
            size == self.frame_count * self.frame_size,
    {
        self.frame_count * self.frame_size
    }

    /// The rules that the worker validates by.
    pub fn rules(&self) -> (config: ValidationConfig)
        ensures
            config == (ValidationConfig {
                target_port: self.target_port,
                ..ValidationConfig::usual()
            }),
    {
        let mut config: ValidationConfig = ValidationConfig::default();
        config.target_port = self.target_port;
        config
    }

    /// Where the frames stand that fill the fill ring at the start, or a message
    /// where it did not have room for them all.
    pub fn initial_fill(&self, reserved: u32) -> (r: Result<Vec<u64>, String>)
        ensures
            if reserved == self.fill_size {
                r is Ok && r->Ok_0@ == Seq::new(
                    self.fill_size as nat,
                    |i: int| (i * self.frame_size) as u64,
                )
            } else {
                r is Err && r->Err_0@ == "Failed to populate initial Fill ring slots"@
            },
    {
        if reserved != self.fill_size {
            return Err("Failed to populate initial Fill ring slots".to_owned());
        }
        let mut addrs: Vec<u64> = Vec::new();
        let mut i: u32 = 0;
        while i < reserved
            invariant
                i <= reserved,
                addrs@ == Seq::new(i as nat, |j: int| (j * self.frame_size) as u64),
            decreases reserved - i,
        {
            assert(i * self.frame_size <= u32::MAX * u32::MAX) by (nonlinear_arith)
                requires
                    0 <= i <= u32::MAX,
                    0 <= self.frame_size <= u32::MAX,
            ;
            addrs.push(i as u64 * self.frame_size as u64);
            i = i + 1;
            assert(addrs@ =~= Seq::new(i as nat, |j: int| (j * self.frame_size) as u64));
        }
        Ok(addrs)
    }
}

/// A line with a text in it.
pub fn frame_line(text: &[u8]) -> (line: Vec<u8>)
    ensures
        line@ == text@.push(10u8),
{
    let mut line: Vec<u8> = Vec::new();
    line.extend_from_slice(text);
    assert(line@ =~= text@);
    line.push(10u8);
    line
}

/// The bytes up to the first end of line, which counts, or all where there is
/// none.
pub open spec fn first_line(bytes: Seq<u8>) -> Seq<u8>
    decreases bytes.len(),
{
    if bytes.len() == 0 {
        bytes
    } else if bytes[0] == 10u8 {
        bytes.take(1)
    } else {
        seq![bytes[0]] + first_line(bytes.skip(1))
    }
}

/// Reads a line byte by byte.
#[derive(Debug)]
pub struct LineReader {
    line: Vec<u8>,
}

impl LineReader {
    /// What was read so far.
    pub closed spec fn bytes(self) -> Seq<u8> {
        self.line@
    }

    /// Nothing was read.
    pub fn new() -> (reader: Self)
        ensures
            reader.bytes() == Seq::<u8>::empty(),
    {
        LineReader { line: Vec::new() }
    }

    /// Takes in the next byte; returns whether the line is over. What is held then is
    /// the first line of the bytes that were taken in, whatever follows them.
    pub fn push(&mut self, byte: u8) -> (over: bool)
        ensures
            final(self).bytes() == old(self).bytes().push(byte),
            over == (byte == 10u8),
            !old(self).bytes().contains(10u8) && over ==> forall|rest: Seq<u8>| #[trigger]
                first_line(final(self).bytes() + rest) == final(self).bytes(),
            !old(self).bytes().contains(10u8) && !over ==> !final(self).bytes().contains(10u8),
    {
        self.line.push(byte);
        proof {
            let before = old(self).bytes();
            if !before.contains(10u8) && byte == 10u8 {
                assert forall|rest: Seq<u8>| #[trigger]
                    first_line(self.bytes() + rest) == self.bytes() by {
                    line_round_trip(before, rest);
                }
            }
            if !before.contains(10u8) && byte != 10u8 && self.bytes().contains(10u8) {
                let i = choose|i: int| 0 <= i < self.bytes().len() && self.bytes()[i] == 10u8;
                assert(before[i] == 10u8);
            }
        }
        byte == 10u8
    }

    /// The line, each byte as a character.
    pub fn chars(&self) -> (chars: Vec<char>)
        ensures
            chars@ == Seq::new(self.bytes().len(), |i: int| self.bytes()[i] as char),
    {
        let mut chars: Vec<char> = Vec::new();
        let mut i: usize = 0;
        while i < self.line.len()
            invariant
                i <= self.line@.len(),
                chars@ == Seq::new(i as nat, |j: int| self.line@[j] as char),
            decreases self.line@.len() - i,
        {
            chars.push(self.line[i] as char);
            i = i + 1;
            assert(chars@ =~= Seq::new(i as nat, |j: int| self.line@[j] as char));
        }
        chars
    }
}

// ---------------------------------------------------------------------------
// Rings
// ---------------------------------------------------------------------------

/// The four rings of a socket.
#[derive(Clone, Copy, Debug, PartialEq, Eq, Structural)]
pub enum RingKind {
    Rx,
    Tx,
    Fill,
    Completion,
}

impl RingKind {
    /// Bytes of a slot: a whole descriptor, or only an address.
    pub open spec fn slot_size(self) -> int {
        match self {
            RingKind::Rx | RingKind::Tx => 16,
            RingKind::Fill | RingKind::Completion => 8,
        }
    }

    /// Where the ring is mapped from.
    pub open spec fn page_offset(self) -> int {
        match self {
            RingKind::Rx => 0,
            RingKind::Tx => 0x8000_0000,
            RingKind::Fill => 0x1_0000_0000,
            RingKind::Completion => 0x1_8000_0000,
        }
    }
}

/// How a ring is mapped.
#[derive(Clone, Copy, Debug, PartialEq, Eq, Structural)]
pub struct RingMap {
    /// Bytes to map.
    pub len: u64,
    /// Where to map from.
    pub page_offset: u64,
    /// What the number of a slot is masked with.
    pub mask: u32,
}

/// How a ring is mapped whose slots begin at `desc` and which has `size` of them.
pub fn ring_map(kind: RingKind, desc: u64, size: u32) -> (map: RingMap)
    requires
        size > 0,
        size * kind.slot_size() <= u32::MAX,
        desc + size * kind.slot_size() <= u64::MAX,
    ensures
        map.len == desc + size * kind.slot_size(),
        map.page_offset == kind.page_offset(),
        map.mask == size - 1,
{
    let (slot, page_offset): (u32, u64) = match kind {
        RingKind::Rx => (16, 0),
        RingKind::Tx => (16, 0x8000_0000),
        RingKind::Fill => (8, 0x1_0000_0000),
        RingKind::Completion => (8, 0x1_8000_0000),
    };
    RingMap { len: desc + (size * slot) as u64, page_offset, mask: size - 1 }
}

// ---------------------------------------------------------------------------
// The packet loop
// ---------------------------------------------------------------------------

/// Most slots of a ring that are looked at at once.
pub const PEEK_SIZE: u32 = 64;

/// What happened to the packets so far.
#[derive(Clone, Copy, Debug, PartialEq, Eq, Structural)]
pub struct RelayCounts {
    pub rx_packets: u64,
    pub tx_packets: u64,
    pub drop_packets: u64,
    pub recycled_packets: u64,
}

/// What the driver of the loop does next.
#[derive(Clone, Copy, Debug, PartialEq, Eq, Structural)]
pub enum RelayTask {
    /// Look at the receive ring.
    Peek,
    /// Look at the next packet.
    Inspect,
    /// Reserve a slot of the transmit ring, and send the packet in it.
    Send,
    /// Reserve a slot of the fill ring, and give the frame back in it.
    GiveBack,
    /// Release this many slots of the receive ring.
    Release(u32),
    /// Look at the completion ring.
    Complete,
    /// Reserve slots of the fill ring for the frames that were sent, and give them
    /// back in those there are.
    Refill,
    /// Find out whether the transmit ring has to be woken up.
    CheckTx,
    /// Wake the transmit ring up.
    WakeTx,
    /// Find out whether the fill ring has to be woken up.
    CheckFill,
    /// Wake the fill ring up.
    WakeFill,
    /// The turn is over: report when it is time.
    Report,
}

/// Where the loop stands.
#[verifier::ext_equal]
pub struct RelayState {
    pub task: RelayTask,
    /// Frames that were not decided on yet, the current one first.
    pub received: Seq<FrameDesc>,
    /// Slots of the receive ring to release.
    pub batch: u32,
    /// Where the frames stand that were sent.
    pub completed: Seq<u64>,
    pub counts: RelayCounts,
}

impl RelayState {
    /// The loop before its first turn.
    pub open spec fn start() -> RelayState {
        RelayState {
            task: RelayTask::Peek,
            received: Seq::empty(),
            batch: 0,
            completed: Seq::empty(),
            counts: RelayCounts {
                rx_packets: 0,
                tx_packets: 0,
                drop_packets: 0,
                recycled_packets: 0,
            },
        }
    }

    /// Every packet that was received was sent or dropped, but for those that were
    /// not decided on yet.
    pub open spec fn consistent(self) -> bool {
        &&& self.counts.rx_packets == self.counts.tx_packets + self.counts.drop_packets
            + self.received.len()
        &&& match self.task {
            RelayTask::Inspect | RelayTask::Send | RelayTask::GiveBack => self.received.len() > 0,
            _ => self.received.len() == 0,
        }
    }

    /// After these frames were found in the receive ring.
    pub open spec fn after_peek(self, frames: Seq<FrameDesc>) -> RelayState {
        if frames.len() == 0 {
            RelayState { task: RelayTask::Complete, ..self }
        } else {
            RelayState {
                task: RelayTask::Inspect,
                received: frames,
                batch: frames.len() as u32,
                counts: RelayCounts {
                    rx_packets: (self.counts.rx_packets + frames.len()) as u64,
                    ..self.counts
                },
                ..self
            }
        }
    }

    /// After the current packet was looked at.
    pub open spec fn after_inspect(self, valid: bool) -> RelayState {
        RelayState {
            task: if valid {
                RelayTask::Send
            } else {
                RelayTask::GiveBack
            },
            ..self
        }
    }

    /// On to the next packet; where none is left, on to releasing the slots.
    pub open spec fn decided(self) -> RelayState {
        RelayState {
            received: self.received.skip(1),
            task: if self.received.len() > 1 {
                RelayTask::Inspect
            } else {
                RelayTask::Release(self.batch)
            },
            ..self
        }
    }

    /// After a slot of the transmit ring was reserved, or was not to be had. In
    /// the latter case the frame is given back.
    pub open spec fn after_send(self, reserved: bool) -> RelayState {
        if reserved {
            RelayState {
                counts: RelayCounts {
                    tx_packets: (self.counts.tx_packets + 1) as u64,
                    ..self.counts
                },
                ..self
            }.decided()
        } else {
            RelayState { task: RelayTask::GiveBack, ..self }
        }
    }

    /// After the frame was given back, or was not because the fill ring has no
    /// slot. The packet is gone either way.
    pub open spec fn after_give_back(self) -> RelayState {
        RelayState {
            counts: RelayCounts {
                drop_packets: (self.counts.drop_packets + 1) as u64,
                ..self.counts
            },
            ..self
        }.decided()
    }

    /// After these frames were found in the completion ring.
    pub open spec fn after_completed(self, addrs: Seq<u64>) -> RelayState {
        RelayState {
            task: if addrs.len() == 0 {
                RelayTask::CheckTx
            } else {
                RelayTask::Refill
            },
            completed: addrs,
            ..self
        }
    }

    /// After the first `n` of them were given back. The others are still in the
    /// completion ring, and are found there again.
    pub open spec fn after_refill(self, n: int) -> RelayState {
        RelayState {
            task: RelayTask::CheckTx,
            completed: Seq::empty(),
            counts: RelayCounts {
                recycled_packets: (self.counts.recycled_packets + n) as u64,
                ..self.counts
            },
            ..self
        }
    }

    /// After it was found out whether a ring has to be woken up.
    pub open spec fn after_check(self, needed: bool) -> RelayState {
        RelayState {
            task: match (self.task, needed) {
                (RelayTask::CheckTx, true) => RelayTask::WakeTx,
                (RelayTask::CheckTx, false) => RelayTask::CheckFill,
                (RelayTask::CheckFill, true) => RelayTask::WakeFill,
                (_, _) => RelayTask::Report,
            },
            ..self
        }
    }

    /// After something was done that has no outcome: slots were released, a ring
    /// was woken up, or the turn was closed.
    pub open spec fn after_done(self) -> RelayState {
        RelayState {
            task: match self.task {
                RelayTask::Release(_) => RelayTask::Complete,
                RelayTask::WakeTx => RelayTask::CheckFill,
                RelayTask::WakeFill => RelayTask::Report,
                _ => RelayTask::Peek,
            },
            ..self
        }
    }
}

/// The packet loop of a worker without privileges.
#[derive(Debug)]
pub struct RelayLoop {
    task: RelayTask,
    received: Vec<FrameDesc>,
    at: usize,
    completed: Vec<u64>,
    counts: RelayCounts,
    batch: u32,
    echo: bool,
}

impl RelayLoop {
    /// Every packet that was received was sent or dropped, or is still to be
    /// decided on.
    pub closed spec fn wf(self) -> bool {
        self.at <= self.received@.len() && self.state().consistent()
    }

    /// Where the loop stands.
    pub closed spec fn state(self) -> RelayState {
        RelayState {
            task: self.task,
            received: self.received@.skip(self.at as int),
            batch: self.batch,
            completed: self.completed@,
            counts: self.counts,
        }
    }

    /// How packets are sent on.
    pub closed spec fn mode(self) -> OperationMode {
        if self.echo {
            OperationMode::Echo
        } else {
            OperationMode::Forward
        }
    }

    /// What being well formed means for the counts.
    pub proof fn wf_means(self)
        requires
            self.wf(),
        ensures
            self.state().consistent(),
    {
    }

    /// A loop that has received nothing yet. With `echo` packets go back to where
    /// they came from.
    pub fn new(echo: bool) -> (r: Self)
        ensures
            r.wf(),
            r.state() == RelayState::start(),
            r.mode() == if echo {
                OperationMode::Echo
            } else {
                OperationMode::Forward
            },
    {
        let r = RelayLoop {
            task: RelayTask::Peek,
            received: Vec::new(),
            at: 0,
            completed: Vec::new(),
            counts: RelayCounts {
                rx_packets: 0,
                tx_packets: 0,
                drop_packets: 0,
                recycled_packets: 0,
            },
            batch: 0,
            echo,
        };
        assert(r.state() =~= RelayState::start());
        r
    }

    /// What the driver does next.
    pub fn task(&self) -> (task: RelayTask)
        ensures
            task == self.state().task,
    {
        self.task
    }

    /// What happened to the packets so far.
    pub fn counts(&self) -> (counts: RelayCounts)
        ensures
            counts == self.state().counts,
    {
        self.counts
    }

    /// The current frame.
    pub fn current(&self) -> (desc: FrameDesc)
        requires
            self.wf(),
            self.state().received.len() > 0,
        ensures
            desc == self.state().received[0],
    {
        self.received[self.at]
    }

    /// Where the frames stand that were sent.
    pub fn completed(&self) -> (addrs: &[u64])
        ensures
            addrs@ == self.state().completed,
    {
        self.completed.as_slice()
    }

    /// These frames were found in the receive ring.
    pub fn peeked(&mut self, frames: &[FrameDesc])
        requires
            old(self).wf(),
            old(self).state().task == RelayTask::Peek,
            frames@.len() <= PEEK_SIZE,
            old(self).state().counts.rx_packets + frames@.len() <= u64::MAX,
        ensures
            final(self).wf(),
            final(self).mode() == old(self).mode(),
            final(self).state() == old(self).state().after_peek(frames@),
    {
        let ghost before = self.state();
        let n: usize = frames.len();
        if n == 0 {
            self.task = RelayTask::Complete;
        } else {
            self.received.clear();
            self.received.extend_from_slice(frames);
            self.at = 0;
            assert(self.received@.skip(0) =~= frames@);
            self.batch = n as u32;
            self.counts.rx_packets = self.counts.rx_packets + n as u64;
            self.task = RelayTask::Inspect;
        }
        assert(self.state() =~= before.after_peek(frames@));
    }

    /// Validates the current packet. A valid one is prepared to be sent.
    pub fn inspect(&mut self, buf: &mut [u8], config: &ValidationConfig)
        requires
            old(self).wf(),
            old(self).state().task == RelayTask::Inspect,
        ensures
            final(self).wf(),
            final(self).mode() == old(self).mode(),
            final(self).state() == old(self).state().after_inspect(
                protobuf::validation_error(old(buf)@, *config) is None,
            ),
            final(buf)@ == inspected_packet(old(buf)@, *config, old(self).mode()),
    {
        match validate_grpc_protobuf_packet(buf, config) {
            Ok(_) => {
                if self.echo {
                    swap_macs(buf);
                }
                self.task = RelayTask::Send;
            },
            Err(_) => {
                self.task = RelayTask::GiveBack;
            },
        }
    }

    /// On to the next packet.
    fn decide(&mut self)
        requires
            old(self).at < old(self).received@.len(),
        ensures
            final(self).at <= final(self).received@.len(),
            final(self).mode() == old(self).mode(),
            final(self).state() == old(self).state().decided(),
    {
        let ghost before = self.state();
        let len: usize = self.received.len();
        assert(self.at < len);
        self.at = self.at + 1;
        assert(self.received@.skip(self.at as int) =~= before.received.skip(1));
        self.task = if self.at < self.received.len() {
            RelayTask::Inspect
        } else {
            RelayTask::Release(self.batch)
        };
        assert(self.state() =~= before.decided());
    }

    /// A slot of the transmit ring was reserved, or was not to be had.
    pub fn send_slot(&mut self, reserved: bool)
        requires
            old(self).wf(),
            old(self).state().task == RelayTask::Send,
        ensures
            final(self).wf(),
            final(self).mode() == old(self).mode(),
            final(self).state() == old(self).state().after_send(reserved),
    {
        if reserved {
            self.counts.tx_packets = self.counts.tx_packets + 1;
            self.decide();
        } else {
            self.task = RelayTask::GiveBack;
        }
    }

    /// The frame was given back, or the fill ring had no slot for it.
    pub fn given_back(&mut self)
        requires
            old(self).wf(),
            old(self).state().task == RelayTask::GiveBack,
        ensures
            final(self).wf(),
            final(self).mode() == old(self).mode(),
            final(self).state() == old(self).state().after_give_back(),
    {
        self.counts.drop_packets = self.counts.drop_packets + 1;
        self.decide();
    }

    /// Frames that stand here were found in the completion ring.
    pub fn found_completed(&mut self, addrs: &[u64])
        requires
            old(self).wf(),
            old(self).state().task == RelayTask::Complete,
        ensures
            final(self).wf(),
            final(self).mode() == old(self).mode(),
            final(self).state() == old(self).state().after_completed(addrs@),
    {
        self.completed.clear();
        self.completed.extend_from_slice(addrs);
        assert(self.completed@ =~= addrs@);
        self.task = if addrs.len() == 0 {
            RelayTask::CheckTx
        } else {
            RelayTask::Refill
        };
    }

    /// The first `n` of the frames that were sent were given back.
    pub fn refilled(&mut self, n: u32)
        requires
            old(self).wf(),
            old(self).state().task == RelayTask::Refill,
            n <= old(self).state().completed.len(),
            old(self).state().counts.recycled_packets + n <= u64::MAX,
        ensures
            final(self).wf(),
            final(self).mode() == old(self).mode(),
            final(self).state() == old(self).state().after_refill(n as int),
    {
        self.completed.clear();
        assert(self.completed@ =~= Seq::<u64>::empty());
        self.counts.recycled_packets = self.counts.recycled_packets + n as u64;
        self.task = RelayTask::CheckTx;
    }

    /// Whether the ring has to be woken up.
    pub fn wakeup_needed(&mut self, needed: bool)
        requires
            old(self).wf(),
            old(self).state().task == RelayTask::CheckTx || old(self).state().task
                == RelayTask::CheckFill,
        ensures
            final(self).wf(),
            final(self).mode() == old(self).mode(),
            final(self).state() == old(self).state().after_check(needed),
    {
        self.task = match (self.task, needed) {
            (RelayTask::CheckTx, true) => RelayTask::WakeTx,
            (RelayTask::CheckTx, false) => RelayTask::CheckFill,
            (RelayTask::CheckFill, true) => RelayTask::WakeFill,
            (_, _) => RelayTask::Report,
        };
    }

    /// Slots were released, a ring was woken up, or the turn was closed.
    pub fn done(&mut self)
        requires
            old(self).wf(),
            old(self).state().task is Release || old(self).state().task == RelayTask::WakeTx
                || old(self).state().task == RelayTask::WakeFill || old(self).state().task
                == RelayTask::Report,
        ensures
            final(self).wf(),
            final(self).mode() == old(self).mode(),
            final(self).state() == old(self).state().after_done(),
    {
        self.task = match self.task {
            RelayTask::Release(_) => RelayTask::Complete,
            RelayTask::WakeTx => RelayTask::CheckFill,
            RelayTask::WakeFill => RelayTask::Report,
            _ => RelayTask::Peek,
        };
    }
}

// ---------------------------------------------------------------------------
// Laws
// ---------------------------------------------------------------------------

/// A line that is written is read back: the reader stops at its end, whatever
/// follows.
pub proof fn line_round_trip(text: Seq<u8>, rest: Seq<u8>)
    requires
        !text.contains(10u8),
    ensures
        first_line(text.push(10u8) + rest) == text.push(10u8),
    decreases text.len(),
{
    let all = text.push(10u8) + rest;
    if text.len() == 0 {
        assert(all[0] == 10u8);
        assert(all.take(1) =~= text.push(10u8));
    } else {
        let tail = text.skip(1);
        assert(!tail.contains(10u8)) by {
            if tail.contains(10u8) {
                let i = choose|i: int| 0 <= i < tail.len() && tail[i] == 10u8;
                assert(text[i + 1] == 10u8);
            }
        }
        assert(all[0] == text[0]);
        assert(text.contains(text[0]));
        line_round_trip(tail, rest);
        assert(all.skip(1) =~= tail.push(10u8) + rest);
        assert(seq![text[0]] + tail.push(10u8) =~= text.push(10u8));
    }
}

/// What a reader that holds `held` holds once it was fed with `bytes` until the line
/// was over, or until there were no more.
pub open spec fn fed(held: Seq<u8>, bytes: Seq<u8>) -> Seq<u8>
    decreases bytes.len(),
{
    if bytes.len() == 0 {
        held
    } else if bytes[0] == 10u8 {
        held.push(bytes[0])
    } else {
        fed(held.push(bytes[0]), bytes.skip(1))
    }
}

/// A new reader that is fed with bytes until the line is over holds their first
/// line.
pub proof fn reader_holds_first_line(bytes: Seq<u8>)
    ensures
        fed(Seq::empty(), bytes) == first_line(bytes),
{
    fed_appends_first_line(Seq::empty(), bytes);
    assert(Seq::<u8>::empty() + first_line(bytes) =~= first_line(bytes));
}

proof fn fed_appends_first_line(held: Seq<u8>, bytes: Seq<u8>)
    ensures
        fed(held, bytes) == held + first_line(bytes),
    decreases bytes.len(),
{
    if bytes.len() == 0 {
        assert(held + bytes =~= held);
    } else if bytes[0] == 10u8 {
        assert(held + bytes.take(1) =~= held.push(bytes[0]));
    } else {
        fed_appends_first_line(held.push(bytes[0]), bytes.skip(1));
        assert(held.push(bytes[0]) + first_line(bytes.skip(1)) =~= held + (seq![bytes[0]]
            + first_line(bytes.skip(1))));
    }
}

/// A packet that is not valid is never sent, and neither is a valid one for which
/// the transmit ring has no slot: its frame is given back instead.
pub proof fn only_valid_packets_are_sent(s: RelayState)
    ensures
        s.after_inspect(false).task == RelayTask::GiveBack,
        s.after_inspect(true).task == RelayTask::Send,
        s.after_inspect(true).after_send(false).task == RelayTask::GiveBack,
        s.after_inspect(true).after_send(false).counts.tx_packets == s.counts.tx_packets,
        s.after_give_back().counts.tx_packets == s.counts.tx_packets,
{
}

/// At the end of a turn every packet that was received was sent or dropped.
pub proof fn turn_decides_all(s: RelayState)
    requires
        s.consistent(),
        s.task == RelayTask::Report,
    ensures
        s.counts.rx_packets == s.counts.tx_packets + s.counts.drop_packets,
{
}

/// Every packet is decided on in the order in which it was received, one at a time, and
/// the slots of all of them are released together at the end.
pub proof fn packets_are_decided_in_order(s: RelayState, frames: Seq<FrameDesc>)
    requires
        s.task == RelayTask::Peek,
        0 < frames.len() <= PEEK_SIZE,
        s.counts.rx_packets + frames.len() <= u64::MAX,
    ensures
        ({
            let t = s.after_peek(frames);
            &&& t.task == RelayTask::Inspect
            &&& t.received == frames
            &&& t.counts.rx_packets == s.counts.rx_packets + frames.len()
            &&& t.counts.tx_packets == s.counts.tx_packets
            &&& t.counts.drop_packets == s.counts.drop_packets
            &&& t.batch == frames.len()
        }),
        s.after_peek(Seq::empty()).task == RelayTask::Complete,
        s.after_peek(Seq::empty()).counts == s.counts,
{
}

/// A packet that is sent counts as sent and one that is given back as dropped, once each,
/// and the next packet follows; behind the last one the slots are released.
pub proof fn decided_packets_are_counted(s: RelayState)
    requires
        s.received.len() > 0,
        s.counts.tx_packets < u64::MAX,
        s.counts.drop_packets < u64::MAX,
    ensures
        ({
            let sent = s.after_send(true);
            let given = s.after_give_back();
            let next = if s.received.len() > 1 {
                RelayTask::Inspect
            } else {
                RelayTask::Release(s.batch)
            };
            &&& sent.counts.tx_packets == s.counts.tx_packets + 1
            &&& sent.counts.drop_packets == s.counts.drop_packets
            &&& given.counts.drop_packets == s.counts.drop_packets + 1
            &&& given.counts.tx_packets == s.counts.tx_packets
            &&& sent.counts.rx_packets == s.counts.rx_packets
            &&& given.counts.rx_packets == s.counts.rx_packets
            &&& sent.received == s.received.skip(1) && given.received == s.received.skip(1)
            &&& sent.task == next && given.task == next
            &&& s.after_send(false).counts == s.counts
            &&& s.after_send(false).received == s.received
        }),
{
}

/// Behind the received packets come the frames that were sent, which are counted as they
/// are given back, then the two rings, each of which is woken up where it asks for it, and
/// then the turn is over.
pub proof fn relay_works_the_rings_in_turn(s: RelayState, addrs: Seq<u64>, n: int)
    requires
        0 <= n <= addrs.len(),
        s.counts.recycled_packets + n <= u64::MAX,
    ensures
        s.task is Release ==> s.after_done().task == RelayTask::Complete,
        addrs.len() > 0 ==> s.after_completed(addrs).task == RelayTask::Refill,
        addrs.len() == 0 ==> s.after_completed(addrs).task == RelayTask::CheckTx,
        s.after_completed(addrs).completed == addrs,
        s.after_refill(n).task == RelayTask::CheckTx,
        s.after_refill(n).counts.recycled_packets == s.counts.recycled_packets + n,
        s.task == RelayTask::CheckTx ==> s.after_check(true).task == RelayTask::WakeTx
            && s.after_check(true).after_done().task == RelayTask::CheckFill && s.after_check(
            false,
        ).task == RelayTask::CheckFill,
        s.task == RelayTask::CheckFill ==> s.after_check(true).task == RelayTask::WakeFill
            && s.after_check(true).after_done().task == RelayTask::Report && s.after_check(
            false,
        ).task == RelayTask::Report,
        s.task == RelayTask::Report ==> s.after_done().task == RelayTask::Peek,
        s.after_done().counts == s.counts,
        s.after_check(true).counts == s.counts,
        RelayState::start().consistent(),
{
}

/// No user but the three is trusted.
pub proof fn no_other_user_is_trusted(uid: u32)
    ensures
        trusted_user(uid) <==> set![0u32, 10001, 65534].contains(uid),
{
}

/// A slot of the receive and transmit rings holds a whole descriptor, one of the other two
/// only an address, and the rings are mapped from different places.
pub proof fn rings_are_laid_out(kind: RingKind, other: RingKind)
    ensures
        kind is Rx || kind is Tx ==> kind.slot_size() == 16,
        kind is Fill || kind is Completion ==> kind.slot_size() == 8,
        kind != other ==> kind.page_offset() != other.page_offset(),
        RingKind::Rx.page_offset() == 0,
        RingKind::Tx.page_offset() == 0x8000_0000,
        RingKind::Fill.page_offset() == 0x1_0000_0000,
        RingKind::Completion.page_offset() == 0x1_8000_0000,
{
}

} // verus!
