//! The packet loop of a worker: frames go from the fill ring over the receive ring
//! to the transmit ring, and over the completion ring back to the fill ring. The
//! loop decides what to do next; its driver works the rings and says what came of
//! it.
use crate::common::OperationMode;
use crate::grpc;
use crate::grpc::ParseError;
use crate::inspect::{
    inspect_headers, inspect_packet, inspected_packet, inspected_stats, inspected_verdict,
    relay_packet, sent_on, settle_packet, Verdict,
};
use crate::metrics::{bump_if, Counter, ThreadStats};
use crate::protobuf::ValidationConfig;
use crate::tx::FrameDesc;
use vstd::prelude::*;

verus! {

/// Most frames that are taken from a ring at once.
pub const BATCH_SIZE: usize = 64;

// ---------------------------------------------------------------------------
// Where the frames are
// ---------------------------------------------------------------------------

/// How many frames are where, and how many were sent and came back so far.
#[derive(Clone, Copy, Debug, PartialEq, Eq, Structural)]
pub struct FrameLedger {
    /// Frames that the kernel has to receive packets in.
    pub frames_in_fill: i64,
    /// Frames with a packet that the worker deals with.
    pub frames_in_rx: i64,
    /// Frames that are being sent.
    pub frames_in_tx: i64,
    /// Frames that were sent and not given back yet.
    pub frames_in_comp: i64,
    pub total_tx_packets: u64,
    pub total_recycled_packets: u64,
}

impl FrameLedger {
    /// Frames in all places together.
    pub open spec fn frames(self) -> int {
        self.frames_in_fill + self.frames_in_rx + self.frames_in_tx + self.frames_in_comp
    }

    /// All frames are in the fill ring.
    pub open spec fn start(frame_count: u32) -> FrameLedger {
        FrameLedger {
            frames_in_fill: frame_count as i64,
            frames_in_rx: 0,
            frames_in_tx: 0,
            frames_in_comp: 0,
            total_tx_packets: 0,
            total_recycled_packets: 0,
        }
    }

    /// The counts have room for `n` more packets to be received.
    pub open spec fn can_receive(self, n: int) -> bool {
        self.frames_in_rx + n <= i64::MAX && self.frames_in_fill - n >= i64::MIN
    }

    /// The counts have room for `n` received frames to be given back unsent.
    pub open spec fn can_return(self, n: int) -> bool {
        self.frames_in_fill + n <= i64::MAX && self.frames_in_rx - n >= i64::MIN
    }

    /// The counts have room for `n` more frames to be handed over.
    pub open spec fn can_send(self, n: int) -> bool {
        &&& self.total_tx_packets + n <= u64::MAX
        &&& self.frames_in_tx + n <= i64::MAX
        &&& self.frames_in_rx - n >= i64::MIN
    }

    /// The counts have room for `n` more frames to come back.
    pub open spec fn can_complete(self, n: int) -> bool {
        &&& self.total_recycled_packets + n <= u64::MAX
        &&& self.frames_in_comp + n <= i64::MAX
        &&& self.frames_in_tx - n >= i64::MIN
    }

    /// The counts have room for `n` frames that were sent to be given back.
    pub open spec fn can_refill(self, n: int) -> bool {
        self.frames_in_fill + n <= i64::MAX && self.frames_in_comp - n >= i64::MIN
    }

    /// The counts have room for `n` frames to move anywhere.
    pub open spec fn room(self, n: int) -> bool {
        &&& i64::MIN + n <= self.frames_in_fill <= i64::MAX - n
        &&& i64::MIN + n <= self.frames_in_rx <= i64::MAX - n
        &&& i64::MIN + n <= self.frames_in_tx <= i64::MAX - n
        &&& i64::MIN + n <= self.frames_in_comp <= i64::MAX - n
        &&& self.total_tx_packets <= u64::MAX - n
        &&& self.total_recycled_packets <= u64::MAX - n
    }

    /// After `n` packets were received.
    pub open spec fn with_received(self, n: int) -> FrameLedger {
        FrameLedger {
            frames_in_rx: (self.frames_in_rx + n) as i64,
            frames_in_fill: (self.frames_in_fill - n) as i64,
            ..self
        }
    }

    /// After `n` received frames were given back unsent.
    pub open spec fn with_returned(self, n: int) -> FrameLedger {
        FrameLedger {
            frames_in_fill: (self.frames_in_fill + n) as i64,
            frames_in_rx: (self.frames_in_rx - n) as i64,
            ..self
        }
    }

    /// After `n` frames were handed over to be sent.
    pub open spec fn with_sent(self, n: int) -> FrameLedger {
        FrameLedger {
            total_tx_packets: (self.total_tx_packets + n) as u64,
            frames_in_tx: (self.frames_in_tx + n) as i64,
            frames_in_rx: (self.frames_in_rx - n) as i64,
            ..self
        }
    }

    /// After `n` frames came back from being sent.
    pub open spec fn with_completed(self, n: int) -> FrameLedger {
        FrameLedger {
            total_recycled_packets: (self.total_recycled_packets + n) as u64,
            frames_in_comp: (self.frames_in_comp + n) as i64,
            frames_in_tx: (self.frames_in_tx - n) as i64,
            ..self
        }
    }

    /// After `n` frames that were sent were given back.
    pub open spec fn with_refilled(self, n: int) -> FrameLedger {
        FrameLedger {
            frames_in_fill: (self.frames_in_fill + n) as i64,
            frames_in_comp: (self.frames_in_comp - n) as i64,
            ..self
        }
    }

    /// All frames are in the fill ring.
    pub fn new(frame_count: u32) -> (ledger: Self)
        ensures
            ledger == FrameLedger::start(frame_count),
    {
        FrameLedger {
            frames_in_fill: frame_count as i64,
            frames_in_rx: 0,
            frames_in_tx: 0,
            frames_in_comp: 0,
            total_tx_packets: 0,
            total_recycled_packets: 0,
        }
    }

    /// Whether `n` frames can move.
    pub fn has_room(&self, n: u32) -> (yes: bool)
        ensures
            yes == self.room(n as int),
    {
        let low: i64 = i64::MIN + n as i64;
        let high: i64 = i64::MAX - n as i64;
        let most: u64 = u64::MAX - n as u64;
        low <= self.frames_in_fill && self.frames_in_fill <= high && low <= self.frames_in_rx
            && self.frames_in_rx <= high && low <= self.frames_in_tx && self.frames_in_tx <= high
            && low <= self.frames_in_comp && self.frames_in_comp <= high && self.total_tx_packets
            <= most && self.total_recycled_packets <= most
    }

    /// Records that packets were received.
    fn receive(&mut self, n: usize)
        requires
            n <= BATCH_SIZE,
            old(self).can_receive(n as int),
        ensures
            *final(self) == old(self).with_received(n as int),
    {
        self.frames_in_rx = self.frames_in_rx + n as i64;
        self.frames_in_fill = self.frames_in_fill - n as i64;
    }

    /// Records that received frames were given back unsent.
    fn give_back(&mut self, n: usize)
        requires
            n <= BATCH_SIZE,
            old(self).can_return(n as int),
        ensures
            *final(self) == old(self).with_returned(n as int),
    {
        self.frames_in_fill = self.frames_in_fill + n as i64;
        self.frames_in_rx = self.frames_in_rx - n as i64;
    }

    /// Records that frames were handed over to be sent.
    fn send(&mut self, n: usize)
        requires
            n <= BATCH_SIZE,
            old(self).can_send(n as int),
        ensures
            *final(self) == old(self).with_sent(n as int),
    {
        self.total_tx_packets = self.total_tx_packets + n as u64;
        self.frames_in_tx = self.frames_in_tx + n as i64;
        self.frames_in_rx = self.frames_in_rx - n as i64;
    }

    /// Records that frames came back from being sent.
    fn complete(&mut self, n: usize)
        requires
            n <= BATCH_SIZE,
            old(self).can_complete(n as int),
        ensures
            *final(self) == old(self).with_completed(n as int),
    {
        self.total_recycled_packets = self.total_recycled_packets + n as u64;
        self.frames_in_comp = self.frames_in_comp + n as i64;
        self.frames_in_tx = self.frames_in_tx - n as i64;
    }

    /// Records that frames that were sent were given back.
    fn refill(&mut self, n: usize)
        requires
            n <= BATCH_SIZE,
            old(self).can_refill(n as int),
        ensures
            *final(self) == old(self).with_refilled(n as int),
    {
        self.frames_in_fill = self.frames_in_fill + n as i64;
        self.frames_in_comp = self.frames_in_comp - n as i64;
    }

    /// What is wrong with the counts, if something is: frames are missing or too
    /// many, or the frames that were sent and those that came back are further
    /// apart than there are frames.
    pub open spec fn error(self, frame_count: u32) -> Option<HealthError> {
        let apart = if self.total_tx_packets >= self.total_recycled_packets {
            self.total_tx_packets - self.total_recycled_packets
        } else {
            self.total_recycled_packets - self.total_tx_packets
        };
        if self.frames() != frame_count {
            Some(HealthError::Leak)
        } else if apart > frame_count {
            Some(HealthError::Starvation)
        } else {
            None
        }
    }

    /// Checks the counts.
    pub fn check_health(&self, frame_count: u32) -> (r: Result<(), HealthError>)
        ensures
            r == match self.error(frame_count) {
                Some(e) => Err::<(), HealthError>(e),
                None => Ok::<(), HealthError>(()),
            },
    {
        let frames: i128 = self.frames_in_fill as i128 + self.frames_in_rx as i128
            + self.frames_in_tx as i128 + self.frames_in_comp as i128;
        if frames != frame_count as i128 {
            return Err(HealthError::Leak);
        }
        let apart: u64 = if self.total_tx_packets >= self.total_recycled_packets {
            self.total_tx_packets - self.total_recycled_packets
        } else {
            self.total_recycled_packets - self.total_tx_packets
        };
        if apart > frame_count as u64 {
            return Err(HealthError::Starvation);
        }
        Ok(())
    }
}

/// What can be wrong with the counts of the frames.
#[derive(Clone, Copy, Debug, PartialEq, Eq, Structural)]
pub enum HealthError {
    /// Frames are missing, or there are too many.
    Leak,
    /// Frames that were sent do not come back.
    Starvation,
}

impl HealthError {
    /// The message for the error.
    pub fn message(&self) -> (m: String)
        ensures
            m@ == match self {
                HealthError::Leak => "Descriptor leak detected!"@,
                HealthError::Starvation => {
                    "Starvation assertion failed! Resource leak detected."@
                },
            },
    {
        match self {
            HealthError::Leak => "Descriptor leak detected!".to_owned(),
            HealthError::Starvation => {
                "Starvation assertion failed! Resource leak detected.".to_owned()
            },
        }
    }
}

// ---------------------------------------------------------------------------
// The model of the loop
// ---------------------------------------------------------------------------

/// What the driver does next.
#[derive(Clone, Copy, Debug, PartialEq, Eq, Structural)]
pub enum LoopTask {
    /// Take packets from the receive ring.
    Consume,
    /// Look at the next packet.
    Inspect,
    /// Offer frames to the fill ring, unsent.
    Recycle,
    /// Find out whether the fill ring has to be woken up.
    CheckRecycle,
    /// Wake the fill ring up.
    WakeRecycle,
    /// Offer frames to the transmit ring.
    Submit,
    /// Find out whether the transmit ring has to be woken up, because it takes no
    /// frames.
    CheckSubmit,
    /// Wake the transmit ring up, because it takes no frames.
    WakeSubmit,
    /// Find out whether the transmit ring has to be woken up to send.
    CheckTx,
    /// Wake the transmit ring up to send.
    WakeTx,
    /// Take frames from the completion ring.
    Reap,
    /// Offer frames that were sent to the fill ring.
    Refill,
    /// Find out whether the fill ring has to be woken up, because it takes no
    /// frames.
    CheckRefill,
    /// Wake the fill ring up, because it takes no frames.
    WakeRefill,
    /// Find out whether the fill ring has to be woken up to receive.
    CheckFill,
    /// Wake the fill ring up to receive.
    WakeFill,
    /// The turn is over: check the counts and report them when it is time.
    Report,
}

/// Where the loop stands.
#[verifier::ext_equal]
pub struct LoopState {
    pub task: LoopTask,
    /// Frames whose packets were not looked at yet.
    pub received: Seq<FrameDesc>,
    /// Frames to give back unsent.
    pub returning: Seq<FrameDesc>,
    /// Frames to send.
    pub sending: Seq<FrameDesc>,
    /// Frames that were sent, to give back.
    pub completed: Seq<FrameDesc>,
    pub ledger: FrameLedger,
    pub stats: ThreadStats,
    /// Frames given back because the loop discards everything.
    pub discarded: u64,
    /// Valid packets that were chosen to be dropped.
    pub drop_simulated: u64,
}

/// What came of the driver's last action.
pub enum LoopEvent {
    /// These frames came from the receive ring.
    Received(Seq<FrameDesc>),
    /// The packet was looked at.
    Inspected(Verdict),
    /// The ring took over this many of the frames that were offered.
    Produced(int),
    /// Whether the ring has to be woken up.
    WakeupNeeded(bool),
    /// The ring was woken up.
    Woken,
    /// These frames came from the completion ring.
    Completed(Seq<FrameDesc>),
    /// The turn was closed.
    Reported,
}

/// A counter after the bytes of all packets were added to it.
pub open spec fn bytes_added(n: u64, descs: Seq<FrameDesc>) -> u64
    decreases descs.len(),
{
    if descs.len() == 0 {
        n
    } else {
        bytes_added(n, descs.drop_last()).wrapping_add(descs.last().len as u64)
    }
}

impl LoopState {
    /// The loop before its first turn.
    pub open spec fn start(frame_count: u32) -> LoopState {
        LoopState {
            task: LoopTask::Consume,
            received: Seq::empty(),
            returning: Seq::empty(),
            sending: Seq::empty(),
            completed: Seq::empty(),
            ledger: FrameLedger::start(frame_count),
            stats: ThreadStats::zero(),
            discarded: 0,
            drop_simulated: 0,
        }
    }

    /// Frames that the driver offers to a ring.
    pub open spec fn offered(self) -> Seq<FrameDesc> {
        match self.task {
            LoopTask::Recycle => self.returning,
            LoopTask::Submit => self.sending,
            LoopTask::Refill => self.completed,
            _ => Seq::empty(),
        }
    }

    /// On to the next packet; where none is left, on to the transmit ring.
    pub open spec fn settled(self, discard: bool) -> LoopState {
        let task = if self.received.len() > 0 {
            LoopTask::Inspect
        } else if discard {
            LoopTask::Reap
        } else if self.sending.len() > 0 {
            LoopTask::Submit
        } else {
            LoopTask::CheckTx
        };
        LoopState { task, ..self }
    }

    /// After frames came from the receive ring.
    pub open spec fn after_received(self, frames: Seq<FrameDesc>, discard: bool) -> LoopState {
        let counted = LoopState {
            ledger: self.ledger.with_received(frames.len() as int),
            stats: ThreadStats {
                rx_packets: self.stats.rx_packets.wrapping_add(frames.len() as u64),
                ..self.stats
            },
            ..self
        };
        if frames.len() == 0 {
            LoopState { task: LoopTask::Reap, ..self }
        } else if discard {
            LoopState { task: LoopTask::Recycle, returning: frames, ..counted }
        } else {
            LoopState { task: LoopTask::Inspect, received: frames, ..counted }
        }
    }

    /// After the next packet was looked at.
    pub open spec fn after_inspected(self, verdict: Verdict, discard: bool) -> LoopState {
        let rest = LoopState { received: self.received.skip(1), ..self };
        match verdict {
            Verdict::Transmit => LoopState {
                sending: self.sending.push(self.received[0]),
                ..rest
            }.settled(discard),
            Verdict::Recycle => LoopState {
                task: LoopTask::Recycle,
                returning: seq![self.received[0]],
                ..rest
            },
        }
    }

    /// After a ring took over some of the frames that were offered.
    pub open spec fn after_produced(self, n: int, discard: bool) -> LoopState {
        match self.task {
            LoopTask::Recycle => {
                let next = LoopState {
                    returning: self.returning.skip(n),
                    ledger: self.ledger.with_returned(n),
                    discarded: if discard {
                        self.discarded.wrapping_add(n as u64)
                    } else {
                        self.discarded
                    },
                    ..self
                };
                if n == 0 {
                    LoopState { task: LoopTask::CheckRecycle, ..self }
                } else if next.returning.len() == 0 {
                    next.settled(discard)
                } else {
                    next
                }
            },
            LoopTask::Submit => {
                let next = LoopState {
                    sending: self.sending.skip(n),
                    ledger: self.ledger.with_sent(n),
                    stats: ThreadStats {
                        tx_bytes: bytes_added(self.stats.tx_bytes, self.sending.take(n)),
                        tx_packets: self.stats.tx_packets.wrapping_add(n as u64),
                        ..self.stats
                    },
                    ..self
                };
                if n == 0 {
                    LoopState { task: LoopTask::CheckSubmit, ..self }
                } else if next.sending.len() == 0 {
                    LoopState { task: LoopTask::CheckTx, ..next }
                } else {
                    next
                }
            },
            LoopTask::Refill => {
                let next = LoopState {
                    completed: self.completed.skip(n),
                    ledger: self.ledger.with_refilled(n),
                    ..self
                };
                if n == 0 {
                    LoopState { task: LoopTask::CheckRefill, ..self }
                } else if next.completed.len() == 0 {
                    LoopState { task: LoopTask::CheckFill, ..next }
                } else {
                    next
                }
            },
            _ => self,
        }
    }

    /// After it was found out whether a ring has to be woken up.
    pub open spec fn after_wakeup_needed(self, needed: bool) -> LoopState {
        LoopState { task: after_check(self.task, needed), ..self }
    }

    /// After a ring was woken up.
    pub open spec fn after_woken(self) -> LoopState {
        LoopState { task: after_wake(self.task), ..self }
    }

    /// After frames came from the completion ring.
    pub open spec fn after_completed(self, frames: Seq<FrameDesc>) -> LoopState {
        if frames.len() == 0 {
            LoopState { task: LoopTask::CheckFill, ..self }
        } else {
            LoopState {
                task: LoopTask::Refill,
                completed: frames,
                ledger: self.ledger.with_completed(frames.len() as int),
                stats: ThreadStats {
                    recycled_packets: self.stats.recycled_packets.wrapping_add(frames.len() as u64),
                    ..self.stats
                },
                ..self
            }
        }
    }

    /// What the driver may say of its last action.
    pub open spec fn expects(self, event: LoopEvent) -> bool {
        match event {
            LoopEvent::Received(frames) => self.task == LoopTask::Consume && frames.len()
                <= BATCH_SIZE && self.ledger.can_receive(frames.len() as int),
            LoopEvent::Inspected(_) => self.task == LoopTask::Inspect,
            LoopEvent::Produced(n) => 0 <= n <= self.offered().len() && match self.task {
                LoopTask::Recycle => self.ledger.can_return(n),
                LoopTask::Submit => self.ledger.can_send(n),
                LoopTask::Refill => self.ledger.can_refill(n),
                _ => false,
            },
            LoopEvent::WakeupNeeded(_) => is_check(self.task),
            LoopEvent::Woken => is_wake(self.task),
            LoopEvent::Completed(frames) => self.task == LoopTask::Reap && frames.len()
                <= BATCH_SIZE && self.ledger.can_complete(frames.len() as int),
            LoopEvent::Reported => self.task == LoopTask::Report,
        }
    }

    /// After the driver said what came of its last action.
    pub open spec fn after(self, event: LoopEvent, discard: bool) -> LoopState {
        match event {
            LoopEvent::Received(frames) => self.after_received(frames, discard),
            LoopEvent::Inspected(verdict) => self.after_inspected(verdict, discard),
            LoopEvent::Produced(n) => self.after_produced(n, discard),
            LoopEvent::WakeupNeeded(needed) => self.after_wakeup_needed(needed),
            LoopEvent::Woken => self.after_woken(),
            LoopEvent::Completed(frames) => self.after_completed(frames),
            LoopEvent::Reported => LoopState { task: LoopTask::Consume, ..self },
        }
    }

    /// The counts fit the frames that the loop holds, and no list holds frames
    /// where its time is over or has not come. A loop that discards everything
    /// looks at no packet and sends none.
    pub open spec fn consistent(self, frame_count: u32, discard: bool) -> bool {
        let l = self.ledger;
        &&& l.frames() == frame_count
        &&& l.frames_in_rx == self.received.len() + self.returning.len() + self.sending.len()
        &&& l.frames_in_rx <= BATCH_SIZE
        &&& l.frames_in_comp == self.completed.len()
        &&& l.frames_in_comp <= BATCH_SIZE
        &&& discard ==> self.received.len() == 0 && self.sending.len() == 0
        &&& l.frames_in_tx == l.total_tx_packets - l.total_recycled_packets
        &&& match self.task {
            LoopTask::Inspect => self.received.len() > 0 && self.returning.len() == 0
                && self.completed.len() == 0,
            LoopTask::Recycle | LoopTask::CheckRecycle | LoopTask::WakeRecycle => {
                self.returning.len() > 0 && self.completed.len() == 0
            },
            LoopTask::Submit | LoopTask::CheckSubmit | LoopTask::WakeSubmit => {
                self.received.len() == 0 && self.returning.len() == 0 && self.sending.len() > 0
                    && self.completed.len() == 0
            },
            LoopTask::Refill | LoopTask::CheckRefill | LoopTask::WakeRefill => {
                self.received.len() == 0 && self.returning.len() == 0 && self.sending.len() == 0
                    && self.completed.len() > 0
            },
            _ => self.received.len() == 0 && self.returning.len() == 0 && self.sending.len() == 0
                && self.completed.len() == 0,
        }
    }
}

/// The driver finds out whether a ring has to be woken up.
pub open spec fn is_check(task: LoopTask) -> bool {
    task == LoopTask::CheckRecycle || task == LoopTask::CheckSubmit || task == LoopTask::CheckTx
        || task == LoopTask::CheckRefill || task == LoopTask::CheckFill
}

/// The driver wakes a ring up.
pub open spec fn is_wake(task: LoopTask) -> bool {
    task == LoopTask::WakeRecycle || task == LoopTask::WakeSubmit || task == LoopTask::WakeTx
        || task == LoopTask::WakeRefill || task == LoopTask::WakeFill
}

/// What follows once a ring was woken up. A ring that took no frames is offered
/// them again.
pub open spec fn after_wake(task: LoopTask) -> LoopTask {
    match task {
        LoopTask::WakeRecycle => LoopTask::Recycle,
        LoopTask::WakeSubmit => LoopTask::Submit,
        LoopTask::WakeTx => LoopTask::Reap,
        LoopTask::WakeRefill => LoopTask::Refill,
        LoopTask::WakeFill => LoopTask::Report,
        other => other,
    }
}

/// What follows once it is known whether a ring has to be woken up: that, or what
/// would follow it.
pub open spec fn after_check(task: LoopTask, needed: bool) -> LoopTask {
    let wake = match task {
        LoopTask::CheckRecycle => LoopTask::WakeRecycle,
        LoopTask::CheckSubmit => LoopTask::WakeSubmit,
        LoopTask::CheckTx => LoopTask::WakeTx,
        LoopTask::CheckRefill => LoopTask::WakeRefill,
        LoopTask::CheckFill => LoopTask::WakeFill,
        other => other,
    };
    if needed {
        wake
    } else {
        after_wake(wake)
    }
}

// ---------------------------------------------------------------------------
// The loop
// ---------------------------------------------------------------------------

/// Frames that are dealt with one after another, or some at a time.
#[derive(Debug)]
struct Pending {
    list: Vec<FrameDesc>,
    at: usize,
}

impl Pending {
    spec fn wf(self) -> bool {
        self.at <= self.list@.len()
    }

    spec fn rest(self) -> Seq<FrameDesc> {
        self.list@.skip(self.at as int)
    }

    fn new() -> (pending: Self)
        ensures
            pending.wf(),
            pending.rest() == Seq::<FrameDesc>::empty(),
    {
        let pending = Pending { list: Vec::new(), at: 0 };
        assert(pending.rest() =~= Seq::<FrameDesc>::empty());
        pending
    }

    fn len(&self) -> (n: usize)
        requires
            self.wf(),
        ensures
            n == self.rest().len(),
    {
        self.list.len() - self.at
    }

    fn frames(&self) -> (descs: &[FrameDesc])
        requires
            self.wf(),
        ensures
            descs@ == self.rest(),
    {
        vstd::slice::slice_subrange(self.list.as_slice(), self.at, self.list.len())
    }

    fn replace(&mut self, descs: &[FrameDesc])
        ensures
            final(self).wf(),
            final(self).rest() == descs@,
    {
        self.list.clear();
        self.list.extend_from_slice(descs);
        self.at = 0;
        assert(self.rest() =~= descs@);
    }

    fn push(&mut self, desc: FrameDesc)
        requires
            old(self).wf(),
        ensures
            final(self).wf(),
            final(self).rest() == old(self).rest().push(desc),
    {
        self.list.push(desc);
        assert(self.rest() =~= old(self).rest().push(desc));
    }

    fn advance(&mut self, n: usize)
        requires
            old(self).wf(),
            n <= old(self).rest().len(),
        ensures
            final(self).wf(),
            final(self).rest() == old(self).rest().skip(n as int),
    {
        let len: usize = self.list.len();
        assert(self.at + n <= len);
        self.at = self.at + n;
        assert(self.rest() =~= old(self).rest().skip(n as int));
        if self.at == self.list.len() {
            self.list.clear();
            self.at = 0;
            assert(self.rest() =~= old(self).rest().skip(n as int));
        }
    }
}

/// The packet loop of a worker.
#[derive(Debug)]
pub struct PacketLoop {
    task: LoopTask,
    received: Pending,
    returning: Pending,
    sending: Pending,
    completed: Pending,
    ledger: FrameLedger,
    stats: ThreadStats,
    discarded: u64,
    drop_simulated: u64,
    discard: bool,
    mode: OperationMode,
    frame_count: u32,
}

impl PacketLoop {
    /// The counts fit the frames that the loop holds.
    pub closed spec fn wf(self) -> bool {
        &&& self.received.wf()
        &&& self.returning.wf()
        &&& self.sending.wf()
        &&& self.completed.wf()
        &&& self.state().consistent(self.frame_count, self.discard)
    }

    /// Where the loop stands.
    pub closed spec fn state(self) -> LoopState {
        LoopState {
            task: self.task,
            received: self.received.rest(),
            returning: self.returning.rest(),
            sending: self.sending.rest(),
            completed: self.completed.rest(),
            ledger: self.ledger,
            stats: self.stats,
            discarded: self.discarded,
            drop_simulated: self.drop_simulated,
        }
    }

    /// Whether every packet is given back at once.
    pub closed spec fn discards(self) -> bool {
        self.discard
    }

    /// How packets are sent on.
    pub closed spec fn mode(self) -> OperationMode {
        self.mode
    }

    /// Number of frames that go round.
    pub closed spec fn frame_count(self) -> u32 {
        self.frame_count
    }

    /// The loop was set up in the same way.
    pub open spec fn same_setup(self, other: PacketLoop) -> bool {
        self.discards() == other.discards() && self.mode() == other.mode() && self.frame_count()
            == other.frame_count()
    }

    /// What being well formed means for the counts.
    pub proof fn wf_means(self)
        requires
            self.wf(),
        ensures
            self.state().consistent(self.frame_count(), self.discards()),
    {
    }

    /// A loop over this many frames, all of them in the fill ring. With `discard`
    /// every packet is given back at once.
    pub fn new(frame_count: u32, mode: OperationMode, discard: bool) -> (r: Self)
        ensures
            r.wf(),
            r.state() == LoopState::start(frame_count),
            r.discards() == discard,
            r.mode() == mode,
            r.frame_count() == frame_count,
    {
        PacketLoop {
            task: LoopTask::Consume,
            received: Pending::new(),
            returning: Pending::new(),
            sending: Pending::new(),
            completed: Pending::new(),
            ledger: FrameLedger::new(frame_count),
            stats: ThreadStats::default(),
            discarded: 0,
            drop_simulated: 0,
            discard,
            mode,
            frame_count,
        }
    }
}

impl PacketLoop {
    /// What the driver does next.
    pub fn task(&self) -> (task: LoopTask)
        ensures
            task == self.state().task,
    {
        self.task
    }

    /// The frame whose packet is to be looked at.
    pub fn current(&self) -> (desc: FrameDesc)
        requires
            self.wf(),
            self.state().task == LoopTask::Inspect,
        ensures
            desc == self.state().received[0],
    {
        self.received.frames()[0]
    }

    /// The frames to offer to a ring.
    pub fn offered(&self) -> (descs: &[FrameDesc])
        requires
            self.wf(),
            self.state().task == LoopTask::Recycle || self.state().task == LoopTask::Submit
                || self.state().task == LoopTask::Refill,
        ensures
            descs@ == self.state().offered(),
    {
        match self.task {
            LoopTask::Recycle => self.returning.frames(),
            LoopTask::Submit => self.sending.frames(),
            _ => self.completed.frames(),
        }
    }

    /// Whether a whole batch can move without the counts running over.
    pub fn has_room(&self) -> (yes: bool)
        ensures
            yes == self.state().ledger.room(BATCH_SIZE as int),
    {
        self.ledger.has_room(64)
    }

    /// The counters.
    pub fn stats(&self) -> (stats: &ThreadStats)
        ensures
            *stats == self.state().stats,
    {
        &self.stats
    }

    /// Frames that were given back because the loop discards everything.
    pub fn discarded(&self) -> (n: u64)
        ensures
            n == self.state().discarded,
    {
        self.discarded
    }

    /// Valid packets that were chosen to be dropped.
    pub fn drop_simulated(&self) -> (n: u64)
        ensures
            n == self.state().drop_simulated,
    {
        self.drop_simulated
    }

    /// Where the frames are.
    pub fn ledger(&self) -> (ledger: FrameLedger)
        ensures
            ledger == self.state().ledger,
    {
        self.ledger
    }

    /// On to the next packet; where none is left, on to the transmit ring.
    fn settle(&mut self)
        requires
            old(self).received.wf(),
            old(self).sending.wf(),
        ensures
            *final(self) == (PacketLoop { task: final(self).task, ..*old(self) }),
            final(self).state() == old(self).state().settled(old(self).discard),
    {
        self.task = if self.received.len() > 0 {
            LoopTask::Inspect
        } else if self.discard {
            LoopTask::Reap
        } else if self.sending.len() > 0 {
            LoopTask::Submit
        } else {
            LoopTask::CheckTx
        };
    }

    /// These frames came from the receive ring.
    pub fn received(&mut self, frames: &[FrameDesc])
        requires
            old(self).wf(),
            old(self).state().expects(LoopEvent::Received(frames@)),
        ensures
            final(self).wf(),
            final(self).same_setup(*old(self)),
            final(self).state() == old(self).state().after_received(frames@, old(self).discards()),
    {
        let ghost before = self.state();
        proof {
            event_keeps_counts(
                before,
                LoopEvent::Received(frames@),
                self.discard,
                self.frame_count,
            );
        }
        let n: usize = frames.len();
        if n == 0 {
            self.task = LoopTask::Reap;
        } else {
            self.ledger.receive(n);
            self.stats.rx_packets = self.stats.rx_packets.wrapping_add(n as u64);
            if self.discard {
                self.returning.replace(frames);
                self.task = LoopTask::Recycle;
            } else {
                self.received.replace(frames);
                self.task = LoopTask::Inspect;
            }
        }
        assert(self.state() =~= before.after_received(frames@, self.discard));
    }

    /// Moves the frame whose packet was looked at on.
    fn decide(&mut self, verdict: Verdict)
        requires
            old(self).wf(),
            old(self).state().task == LoopTask::Inspect,
        ensures
            final(self).wf(),
            final(self).same_setup(*old(self)),
            final(self).state() == old(self).state().after_inspected(
                verdict,
                old(self).discards(),
            ),
    {
        let ghost before = self.state();
        proof {
            event_keeps_counts(
                before,
                LoopEvent::Inspected(verdict),
                self.discard,
                self.frame_count,
            );
        }
        let desc: FrameDesc = self.current();
        self.received.advance(1);
        match verdict {
            Verdict::Transmit => {
                self.sending.push(desc);
                assert(self.state() =~= (LoopState {
                    received: before.received.skip(1),
                    sending: before.sending.push(desc),
                    ..before
                }));
                self.settle();
            },
            Verdict::Recycle => {
                assert(before.returning =~= Seq::<FrameDesc>::empty());
                self.returning.push(desc);
                self.task = LoopTask::Recycle;
                assert(self.returning.rest() =~= seq![desc]);
            },
        }
        assert(self.state() =~= before.after_inspected(verdict, self.discard));
    }

    /// Sends the current packet on without a check.
    pub fn relay(&mut self, buf: &mut [u8])
        requires
            old(self).wf(),
            old(self).state().task == LoopTask::Inspect,
        ensures
            final(self).wf(),
            final(self).same_setup(*old(self)),
            final(buf)@ == sent_on(old(buf)@, old(self).mode()),
            final(self).state() == (LoopState {
                stats: old(self).state().stats.with_bytes(old(buf)@.len() as int),
                ..old(self).state()
            }).after_inspected(Verdict::Transmit, old(self).discards()),
    {
        let mode: OperationMode = self.mode;
        relay_packet(&mut self.stats, buf, mode);
        self.decide(Verdict::Transmit);
    }

    /// Checks the headers of the current packet; returns the error, if there is
    /// one. What becomes of the packet is decided by `settle_headers`.
    pub fn check_headers(&mut self, buf: &[u8], target_port: u16) -> (error: Option<ParseError>)
        requires
            old(self).wf(),
            old(self).state().task == LoopTask::Inspect,
        ensures
            error == grpc::parse_error(buf@, target_port),
            final(self).wf(),
            final(self).same_setup(*old(self)),
            final(self).state() == (LoopState {
                stats: old(self).state().stats.with_bytes(buf@.len() as int).with_headers(error),
                ..old(self).state()
            }),
    {
        inspect_headers(&mut self.stats, buf, target_port)
    }

    /// Decides what becomes of the current packet, whose headers were checked. One
    /// that is in order is sent on, unless it was chosen to be dropped.
    pub fn settle_headers(&mut self, buf: &mut [u8], error: Option<ParseError>, dropped: bool)
        requires
            old(self).wf(),
            old(self).state().task == LoopTask::Inspect,
        ensures
            ({
                let send = error is None && !dropped;
                &&& final(buf)@ == if send {
                    sent_on(old(buf)@, old(self).mode())
                } else {
                    old(buf)@
                }
                &&& final(self).state() == (LoopState {
                    drop_simulated: bump_if(
                        old(self).state().drop_simulated,
                        error is None && dropped,
                    ),
                    ..old(self).state()
                }).after_inspected(
                    if send {
                        Verdict::Transmit
                    } else {
                        Verdict::Recycle
                    },
                    old(self).discards(),
                )
            }),
            final(self).wf(),
            final(self).same_setup(*old(self)),
    {
        let mode: OperationMode = self.mode;
        let verdict: Verdict = settle_packet(buf, mode, error, dropped, &mut self.drop_simulated);
        self.decide(verdict);
    }

    /// Validates the current packet. A valid one is sent on, any other is given
    /// back.
    pub fn validate(&mut self, buf: &mut [u8], config: &ValidationConfig)
        requires
            old(self).wf(),
            old(self).state().task == LoopTask::Inspect,
        ensures
            final(self).wf(),
            final(self).same_setup(*old(self)),
            final(buf)@ == inspected_packet(old(buf)@, *config, old(self).mode()),
            final(self).state() == (LoopState {
                stats: inspected_stats(old(self).state().stats, old(buf)@, *config),
                ..old(self).state()
            }).after_inspected(inspected_verdict(old(buf)@, *config), old(self).discards()),
    {
        let mode: OperationMode = self.mode;
        let verdict: Verdict = inspect_packet(&mut self.stats, buf, config, mode);
        self.decide(verdict);
    }

    /// The ring took over this many of the frames that were offered.
    pub fn produced(&mut self, n: usize)
        requires
            old(self).wf(),
            old(self).state().expects(LoopEvent::Produced(n as int)),
        ensures
            final(self).wf(),
            final(self).same_setup(*old(self)),
            final(self).state() == old(self).state().after_produced(n as int, old(self).discards()),
    {
        let ghost before = self.state();
        proof {
            event_keeps_counts(
                before,
                LoopEvent::Produced(n as int),
                self.discard,
                self.frame_count,
            );
        }
        match self.task {
            LoopTask::Recycle => {
                if n == 0 {
                    self.task = LoopTask::CheckRecycle;
                } else {
                    self.returning.advance(n);
                    self.ledger.give_back(n);
                    if self.discard {
                        self.discarded = self.discarded.wrapping_add(n as u64);
                    }
                    if self.returning.len() == 0 {
                        self.settle();
                    }
                }
            },
            LoopTask::Submit => {
                if n == 0 {
                    self.task = LoopTask::CheckSubmit;
                } else {
                    self.count_sent(n);
                    self.sending.advance(n);
                    self.ledger.send(n);
                    if self.sending.len() == 0 {
                        self.task = LoopTask::CheckTx;
                    }
                }
            },
            _ => {
                if n == 0 {
                    self.task = LoopTask::CheckRefill;
                } else {
                    self.completed.advance(n);
                    self.ledger.refill(n);
                    if self.completed.len() == 0 {
                        self.task = LoopTask::CheckFill;
                    }
                }
            },
        }
        assert(self.state() =~= before.after_produced(n as int, self.discard));
    }

    /// Counts the first `n` frames to send, and their bytes.
    fn count_sent(&mut self, n: usize)
        requires
            old(self).sending.wf(),
            n <= old(self).sending.rest().len(),
        ensures
            *final(self) == (PacketLoop {
                stats: ThreadStats {
                    tx_bytes: bytes_added(
                        old(self).stats.tx_bytes,
                        old(self).sending.rest().take(n as int),
                    ),
                    tx_packets: old(self).stats.tx_packets.wrapping_add(n as u64),
                    ..old(self).stats
                },
                ..*old(self)
            }),
    {
        let ghost descs = self.sending.rest();
        let mut bytes: u64 = self.stats.tx_bytes;
        let mut i: usize = 0;
        while i < n
            invariant
                i <= n <= descs.len(),
                self.sending.wf(),
                descs == self.sending.rest(),
                bytes == bytes_added(self.stats.tx_bytes, descs.take(i as int)),
            decreases n - i,
        {
            assert(descs.take(i + 1).drop_last() =~= descs.take(i as int));
            bytes = bytes.wrapping_add(self.sending.frames()[i].len as u64);
            i = i + 1;
        }
        self.stats.tx_bytes = bytes;
        self.stats.tx_packets = self.stats.tx_packets.wrapping_add(n as u64);
    }

    /// Whether the ring has to be woken up.
    pub fn wakeup_needed(&mut self, needed: bool)
        requires
            old(self).wf(),
            old(self).state().expects(LoopEvent::WakeupNeeded(needed)),
        ensures
            final(self).wf(),
            final(self).same_setup(*old(self)),
            final(self).state() == old(self).state().after_wakeup_needed(needed),
    {
        self.task = match self.task {
            LoopTask::CheckRecycle => if needed {
                LoopTask::WakeRecycle
            } else {
                LoopTask::Recycle
            },
            LoopTask::CheckSubmit => if needed {
                LoopTask::WakeSubmit
            } else {
                LoopTask::Submit
            },
            LoopTask::CheckTx => if needed {
                LoopTask::WakeTx
            } else {
                LoopTask::Reap
            },
            LoopTask::CheckRefill => if needed {
                LoopTask::WakeRefill
            } else {
                LoopTask::Refill
            },
            _ => if needed {
                LoopTask::WakeFill
            } else {
                LoopTask::Report
            },
        };
    }

    /// The ring was woken up.
    pub fn woken(&mut self)
        requires
            old(self).wf(),
            old(self).state().expects(LoopEvent::Woken),
        ensures
            final(self).wf(),
            final(self).same_setup(*old(self)),
            final(self).state() == old(self).state().after_woken(),
    {
        self.task = match self.task {
            LoopTask::WakeRecycle => LoopTask::Recycle,
            LoopTask::WakeSubmit => LoopTask::Submit,
            LoopTask::WakeTx => LoopTask::Reap,
            LoopTask::WakeRefill => LoopTask::Refill,
            _ => LoopTask::Report,
        };
    }

    /// These frames came from the completion ring.
    pub fn completed(&mut self, frames: &[FrameDesc])
        requires
            old(self).wf(),
            old(self).state().expects(LoopEvent::Completed(frames@)),
        ensures
            final(self).wf(),
            final(self).same_setup(*old(self)),
            final(self).state() == old(self).state().after_completed(frames@),
    {
        let ghost before = self.state();
        proof {
            event_keeps_counts(
                before,
                LoopEvent::Completed(frames@),
                self.discard,
                self.frame_count,
            );
        }
        let n: usize = frames.len();
        if n == 0 {
            self.task = LoopTask::CheckFill;
        } else {
            self.stats.recycled_packets = self.stats.recycled_packets.wrapping_add(n as u64);
            self.ledger.complete(n);
            self.completed.replace(frames);
            self.task = LoopTask::Refill;
        }
        assert(self.state() =~= before.after_completed(frames@));
    }

    /// Checks the counts. Frames are never missing.
    pub fn check_health(&self) -> (r: Result<(), HealthError>)
        requires
            self.wf(),
        ensures
            r == match self.state().ledger.error(self.frame_count()) {
                Some(e) => Err::<(), HealthError>(e),
                None => Ok::<(), HealthError>(()),
            },
            r != Err::<(), HealthError>(HealthError::Leak),
    {
        self.ledger.check_health(self.frame_count)
    }

    /// Goes on to the next turn.
    pub fn next_turn(&mut self)
        requires
            old(self).wf(),
            old(self).state().task == LoopTask::Report,
        ensures
            final(self).wf(),
            final(self).same_setup(*old(self)),
            final(self).state() == old(self).state().after(
                LoopEvent::Reported,
                old(self).discards(),
            ),
    {
        self.task = LoopTask::Consume;
    }

    /// Closes the turn: checks the counts, and goes on to the next turn where
    /// nothing is wrong with them.
    pub fn close_turn(&mut self) -> (r: Result<(), HealthError>)
        requires
            old(self).wf(),
            old(self).state().task == LoopTask::Report,
        ensures
            r == match old(self).state().ledger.error(old(self).frame_count()) {
                Some(e) => Err::<(), HealthError>(e),
                None => Ok::<(), HealthError>(()),
            },
            r != Err::<(), HealthError>(HealthError::Leak),
            final(self).wf(),
            final(self).same_setup(*old(self)),
            final(self).state() == if r is Ok {
                old(self).state().after(LoopEvent::Reported, old(self).discards())
            } else {
                old(self).state()
            },
    {
        match self.check_health() {
            Ok(_) => {
                self.next_turn();
                Ok(())
            },
            Err(e) => Err(e),
        }
    }

    /// Starts counting anew. The histogram of packet sizes goes on, and so does the
    /// count of the frames.
    pub fn start_window(&mut self)
        requires
            old(self).wf(),
        ensures
            final(self).wf(),
            final(self).same_setup(*old(self)),
            final(self).state() == (LoopState {
                stats: window_start(old(self).state().stats),
                discarded: 0,
                drop_simulated: 0,
                ..old(self).state()
            }),
    {
        let mut stats: ThreadStats = ThreadStats::default();
        stats.hist_payload_0_64 = self.stats.hist_payload_0_64;
        stats.hist_payload_65_256 = self.stats.hist_payload_65_256;
        stats.hist_payload_257_1024 = self.stats.hist_payload_257_1024;
        stats.hist_payload_1025_2048 = self.stats.hist_payload_1025_2048;
        self.stats = stats;
        self.discarded = 0;
        self.drop_simulated = 0;
    }
}

/// The counters at the start of a window: all zero but the histogram of packet
/// sizes.
pub open spec fn window_start(stats: ThreadStats) -> ThreadStats {
    ThreadStats {
        hist_payload_0_64: stats.hist_payload_0_64,
        hist_payload_65_256: stats.hist_payload_65_256,
        hist_payload_257_1024: stats.hist_payload_257_1024,
        hist_payload_1025_2048: stats.hist_payload_1025_2048,
        ..ThreadStats::zero()
    }
}

// ---------------------------------------------------------------------------
// Laws
// ---------------------------------------------------------------------------

/// Where there is room for a whole batch to move, there is room for every event
/// that can come.
pub proof fn room_is_enough(ledger: FrameLedger, n: int)
    requires
        ledger.room(BATCH_SIZE as int),
        0 <= n <= BATCH_SIZE,
    ensures
        ledger.can_receive(n),
        ledger.can_return(n),
        ledger.can_send(n),
        ledger.can_complete(n),
        ledger.can_refill(n),
{
}

/// No event loses a frame or makes one up: the counts fit the frames that the loop
/// holds from the first turn on, and together they are the frames there are.
pub proof fn event_keeps_counts(s: LoopState, event: LoopEvent, discard: bool, frame_count: u32)
    requires
        s.consistent(frame_count, discard),
        s.expects(event),
    ensures
        s.after(event, discard).consistent(frame_count, discard),
        LoopState::start(frame_count).consistent(frame_count, discard),
{
}

/// At the end of a turn the loop holds no frame: each is being sent, or the kernel
/// has it to receive packets in.
pub proof fn turn_ends_empty(s: LoopState, frame_count: u32, discard: bool)
    requires
        s.consistent(frame_count, discard),
        s.task == LoopTask::Report,
    ensures
        s.ledger.frames_in_rx == 0,
        s.ledger.frames_in_comp == 0,
        s.ledger.frames_in_fill + s.ledger.frames_in_tx == frame_count,
{
}

/// Nothing is wrong with the counts as long as the kernel hands out no frame that
/// it does not have.
pub proof fn honest_kernel_stays_healthy(s: LoopState, frame_count: u32, discard: bool)
    requires
        s.consistent(frame_count, discard),
        s.ledger.frames_in_fill >= 0,
        s.ledger.frames_in_tx >= 0,
    ensures
        s.ledger.error(frame_count) is None,
{
}

/// The frames that an event moves are exactly those it names: nothing is
/// reordered, and what is sent was received.
pub proof fn inspected_frame_moves(s: LoopState, verdict: Verdict, discard: bool)
    requires
        s.task == LoopTask::Inspect,
        s.received.len() > 0,
        s.returning.len() == 0,
    ensures
        ({
            let t = s.after(LoopEvent::Inspected(verdict), discard);
            &&& verdict == Verdict::Transmit ==> t.sending + t.received == s.sending.push(
                s.received[0],
            ) + s.received.skip(1) && t.returning == s.returning
            &&& verdict == Verdict::Recycle ==> t.returning + t.received == s.received
                && t.sending == s.sending
        }),
{
    assert(seq![s.received[0]] + s.received.skip(1) =~= s.received);
}

/// What a run of the loop did.
#[verifier::ext_equal]
pub struct LoopRun {
    /// Where the loop stands at its end.
    pub state: LoopState,
    /// Frames that came from the receive ring, in their order.
    pub received: Seq<FrameDesc>,
    /// What was decided on packets, in the order of their frames.
    pub verdicts: Seq<Verdict>,
    /// Frames that the fill ring took over unsent, in their order.
    pub returned: Seq<FrameDesc>,
    /// Frames that the transmit ring took over, in their order.
    pub sent: Seq<FrameDesc>,
    /// Frames that came from the completion ring, in their order.
    pub completed: Seq<FrameDesc>,
    /// Frames that the fill ring took over after they were sent, in their order.
    pub refilled: Seq<FrameDesc>,
}

impl LoopRun {
    /// A run without an event.
    pub open spec fn start(s: LoopState) -> LoopRun {
        LoopRun {
            state: s,
            received: Seq::empty(),
            verdicts: Seq::empty(),
            returned: Seq::empty(),
            sent: Seq::empty(),
            completed: Seq::empty(),
            refilled: Seq::empty(),
        }
    }

    /// The run with one more event.
    pub open spec fn after(self, event: LoopEvent, discard: bool) -> LoopRun {
        let next = LoopRun { state: self.state.after(event, discard), ..self };
        match event {
            LoopEvent::Received(frames) => LoopRun { received: self.received + frames, ..next },
            LoopEvent::Inspected(verdict) => LoopRun {
                verdicts: self.verdicts.push(verdict),
                ..next
            },
            LoopEvent::Produced(n) => {
                let taken = self.state.offered().take(n);
                match self.state.task {
                    LoopTask::Recycle => LoopRun { returned: self.returned + taken, ..next },
                    LoopTask::Submit => LoopRun { sent: self.sent + taken, ..next },
                    _ => LoopRun { refilled: self.refilled + taken, ..next },
                }
            },
            LoopEvent::Completed(frames) => LoopRun {
                completed: self.completed + frames,
                ..next
            },
            _ => next,
        }
    }
}

/// The run of the loop through some events.
pub open spec fn loop_run(s: LoopState, events: Seq<LoopEvent>, discard: bool) -> LoopRun
    decreases events.len(),
{
    if events.len() == 0 {
        LoopRun::start(s)
    } else {
        loop_run(s, events.drop_last(), discard).after(events.last(), discard)
    }
}

/// Each event of the run is one that the loop expects.
pub open spec fn run_expected(s: LoopState, events: Seq<LoopEvent>, discard: bool) -> bool
    decreases events.len(),
{
    events.len() > 0 ==> run_expected(s, events.drop_last(), discard) && loop_run(
        s,
        events.drop_last(),
        discard,
    ).state.expects(events.last())
}

/// The frames on whose packets `verdict` was given, in their order.
pub open spec fn decided(
    frames: Seq<FrameDesc>,
    verdicts: Seq<Verdict>,
    verdict: Verdict,
) -> Seq<FrameDesc>
    decreases verdicts.len(),
{
    if verdicts.len() == 0 {
        Seq::empty()
    } else {
        let before = decided(frames, verdicts.drop_last(), verdict);
        if verdicts.last() == verdict {
            before.push(frames[verdicts.len() - 1])
        } else {
            before
        }
    }
}

/// Frames behind those that were decided on do not count.
proof fn decided_ignores_later(
    frames: Seq<FrameDesc>,
    more: Seq<FrameDesc>,
    verdicts: Seq<Verdict>,
    verdict: Verdict,
)
    requires
        verdicts.len() <= frames.len(),
    ensures
        decided(frames + more, verdicts, verdict) == decided(frames, verdicts, verdict),
    decreases verdicts.len(),
{
    if verdicts.len() > 0 {
        decided_ignores_later(frames, more, verdicts.drop_last(), verdict);
    }
}

/// Where every packet is sent on, all frames that were decided on are sent in their
/// order, and none is given back.
pub proof fn all_sent_in_order(frames: Seq<FrameDesc>, verdicts: Seq<Verdict>)
    requires
        verdicts.len() <= frames.len(),
        forall|i: int| 0 <= i < verdicts.len() ==> verdicts[i] == Verdict::Transmit,
    ensures
        decided(frames, verdicts, Verdict::Transmit) == frames.take(verdicts.len() as int),
        decided(frames, verdicts, Verdict::Recycle) == Seq::<FrameDesc>::empty(),
    decreases verdicts.len(),
{
    if verdicts.len() > 0 {
        let n = verdicts.len() - 1;
        assert(verdicts.last() == verdicts[n]);
        all_sent_in_order(frames, verdicts.drop_last());
        assert(frames.take(n).push(frames[n]) =~= frames.take(n + 1));
    } else {
        assert(frames.take(0) =~= Seq::<FrameDesc>::empty());
    }
}

/// The frames of a run, as the loop holds them at its end and as the rings took
/// them over.
spec fn accounts(run: LoopRun, discard: bool) -> bool {
    &&& run.refilled + run.state.completed == run.completed
    &&& if discard {
        &&& run.verdicts.len() == 0
        &&& run.sent.len() == 0
        &&& run.returned + run.state.returning == run.received
    } else {
        &&& run.verdicts.len() <= run.received.len()
        &&& run.state.received == run.received.skip(run.verdicts.len() as int)
        &&& run.sent + run.state.sending == decided(
            run.received,
            run.verdicts,
            Verdict::Transmit,
        )
        &&& run.returned + run.state.returning == decided(
            run.received,
            run.verdicts,
            Verdict::Recycle,
        )
    }
}

proof fn received_keeps_accounts(run: LoopRun, frames: Seq<FrameDesc>, discard: bool, count: u32)
    requires
        accounts(run, discard),
        run.state.consistent(count, discard),
        run.state.expects(LoopEvent::Received(frames)),
    ensures
        accounts(run.after(LoopEvent::Received(frames), discard), discard),
{
    let next = run.after(LoopEvent::Received(frames), discard);
    assert(run.returned + run.state.returning =~= run.returned);
    if discard {
        if frames.len() == 0 {
            assert(run.received + frames =~= run.received);
        } else {
            assert(next.returned + next.state.returning =~= next.received);
        }
    } else {
        assert(run.received.len() == run.verdicts.len());
        assert(next.received.skip(run.verdicts.len() as int) =~= frames);
        assert(next.state.received =~= frames);
        decided_ignores_later(run.received, frames, run.verdicts, Verdict::Transmit);
        decided_ignores_later(run.received, frames, run.verdicts, Verdict::Recycle);
    }
}

proof fn inspected_keeps_accounts(run: LoopRun, verdict: Verdict, discard: bool, count: u32)
    requires
        accounts(run, discard),
        run.state.consistent(count, discard),
        run.state.expects(LoopEvent::Inspected(verdict)),
    ensures
        accounts(run.after(LoopEvent::Inspected(verdict), discard), discard),
{
    let next = run.after(LoopEvent::Inspected(verdict), discard);
    let frame = run.state.received[0];
    let k = run.verdicts.len() as int;
    assert(frame == run.received[k]);
    assert(next.verdicts.drop_last() =~= run.verdicts);
    assert(next.verdicts.last() == verdict);
    assert(next.state.received =~= run.received.skip(k + 1));
    assert(run.returned + run.state.returning =~= run.returned);
    if verdict == Verdict::Transmit {
        assert(next.sent + next.state.sending =~= (run.sent + run.state.sending).push(frame));
    } else {
        assert(next.returned + next.state.returning =~= run.returned.push(frame));
    }
}

proof fn produced_keeps_accounts(run: LoopRun, n: int, discard: bool, count: u32)
    requires
        accounts(run, discard),
        run.state.consistent(count, discard),
        run.state.expects(LoopEvent::Produced(n)),
    ensures
        accounts(run.after(LoopEvent::Produced(n), discard), discard),
{
    let next = run.after(LoopEvent::Produced(n), discard);
    let st = run.state;
    match st.task {
        LoopTask::Recycle => {
            assert(next.returned + next.state.returning =~= run.returned + st.returning);
        },
        LoopTask::Submit => {
            assert(next.sent + next.state.sending =~= run.sent + st.sending);
        },
        _ => {
            assert(next.refilled + next.state.completed =~= run.refilled + st.completed);
        },
    }
}

proof fn run_keeps_accounts(
    s: LoopState,
    events: Seq<LoopEvent>,
    discard: bool,
    frame_count: u32,
)
    requires
        s.consistent(frame_count, discard),
        s.task == LoopTask::Consume,
        run_expected(s, events, discard),
    ensures
        loop_run(s, events, discard).state.consistent(frame_count, discard),
        accounts(loop_run(s, events, discard), discard),
    decreases events.len(),
{
    let run = loop_run(s, events, discard);
    if events.len() == 0 {
        assert(run.refilled + run.state.completed =~= run.completed);
        assert(run.returned + run.state.returning =~= Seq::<FrameDesc>::empty());
        assert(run.sent + run.state.sending =~= Seq::<FrameDesc>::empty());
        assert(run.state.received =~= run.received.skip(0));
    } else {
        run_keeps_accounts(s, events.drop_last(), discard, frame_count);
        let before = loop_run(s, events.drop_last(), discard);
        event_keeps_counts(before.state, events.last(), discard, frame_count);
        match events.last() {
            LoopEvent::Received(frames) => {
                received_keeps_accounts(before, frames, discard, frame_count);
            },
            LoopEvent::Inspected(verdict) => {
                inspected_keeps_accounts(before, verdict, discard, frame_count);
            },
            LoopEvent::Produced(n) => {
                produced_keeps_accounts(before, n, discard, frame_count);
            },
            LoopEvent::Completed(frames) => {
                assert(before.refilled + before.state.completed =~= before.refilled);
                assert(run.refilled + run.state.completed =~= run.completed);
            },
            _ => {},
        }
    }
}

/// Over any number of turns: frames whose packets are sent on reach the transmit
/// ring in the order in which they were received, and those whose packets are not
/// reach the fill ring in that order. Where everything is discarded, all frames
/// reach the fill ring in that order, and none the transmit ring. Frames that were
/// sent reach the fill ring in the order in which they came back. No frame is lost,
/// doubled or made up: at the end of a turn the rings have taken over all.
pub proof fn batches_reach_the_rings_in_order(
    s: LoopState,
    events: Seq<LoopEvent>,
    discard: bool,
    frame_count: u32,
)
    requires
        s.consistent(frame_count, discard),
        s.task == LoopTask::Consume,
        run_expected(s, events, discard),
    ensures
        ({
            let run = loop_run(s, events, discard);
            &&& run.state.ledger.frames() == frame_count
            &&& run.refilled == run.completed.take(run.refilled.len() as int)
            &&& run.state.task == LoopTask::Report ==> run.refilled == run.completed
            &&& discard ==> {
                &&& run.sent.len() == 0
                &&& run.returned == run.received.take(run.returned.len() as int)
                &&& run.state.task == LoopTask::Report ==> run.returned == run.received
            }
            &&& !discard ==> {
                let sent = decided(run.received, run.verdicts, Verdict::Transmit);
                let returned = decided(run.received, run.verdicts, Verdict::Recycle);
                &&& run.verdicts.len() <= run.received.len()
                &&& run.sent == sent.take(run.sent.len() as int)
                &&& run.returned == returned.take(run.returned.len() as int)
                &&& run.state.task == LoopTask::Report ==> {
                    &&& run.verdicts.len() == run.received.len()
                    &&& run.sent == sent
                    &&& run.returned == returned
                }
            }
        }),
{
    let run = loop_run(s, events, discard);
    run_keeps_accounts(s, events, discard, frame_count);
    assert(run.refilled =~= run.completed.take(run.refilled.len() as int));
    assert(run.refilled + run.state.completed =~= run.refilled || run.state.completed.len() > 0);
    if discard {
        assert(run.returned =~= run.received.take(run.returned.len() as int));
        assert(run.returned + run.state.returning =~= run.returned || run.state.returning.len()
            > 0);
    } else {
        let sent = decided(run.received, run.verdicts, Verdict::Transmit);
        let returned = decided(run.received, run.verdicts, Verdict::Recycle);
        assert(run.sent =~= sent.take(run.sent.len() as int));
        assert(run.returned =~= returned.take(run.returned.len() as int));
        assert(run.sent + run.state.sending =~= run.sent || run.state.sending.len() > 0);
        assert(run.returned + run.state.returning =~= run.returned || run.state.returning.len()
            > 0);
    }
}

/// Bytes of the packets in these frames.
pub open spec fn frame_bytes(descs: Seq<FrameDesc>) -> int
    decreases descs.len(),
{
    if descs.len() == 0 {
        0
    } else {
        descs[0].len + frame_bytes(descs.skip(1))
    }
}

proof fn frame_bytes_push(descs: Seq<FrameDesc>, desc: FrameDesc)
    ensures
        frame_bytes(descs.push(desc)) == frame_bytes(descs) + desc.len,
        0 <= frame_bytes(descs),
    decreases descs.len(),
{
    let all = descs.push(desc);
    if descs.len() == 0 {
        assert(all.skip(1) =~= Seq::<FrameDesc>::empty());
        assert(frame_bytes(all.skip(1)) == 0);
    } else {
        frame_bytes_push(descs.skip(1), desc);
        assert(all.skip(1) =~= descs.skip(1).push(desc));
    }
}

/// The bytes of frames are added one by one.
proof fn bytes_add_up(n: u64, descs: Seq<FrameDesc>)
    requires
        n + frame_bytes(descs) <= u64::MAX,
    ensures
        bytes_added(n, descs) == n + frame_bytes(descs),
    decreases descs.len(),
{
    if descs.len() > 0 {
        frame_bytes_push(descs.drop_last(), descs.last());
        assert(descs.drop_last().push(descs.last()) =~= descs);
        bytes_add_up(n, descs.drop_last());
    }
}

/// Every event counts what it names: packets that were received, packets and bytes that
/// were handed to the transmit ring, frames that came back, and frames that were
/// discarded. Frames move from one part of the ledger to the next, and the totals grow
/// with them. No other counter changes.
pub proof fn events_are_counted(s: LoopState, event: LoopEvent, discard: bool, count: u32)
    requires
        s.consistent(count, discard),
        s.expects(event),
        s.stats.rx_packets + BATCH_SIZE <= u64::MAX,
        s.stats.tx_packets + BATCH_SIZE <= u64::MAX,
        s.stats.tx_bytes + frame_bytes(s.offered()) <= u64::MAX,
        s.stats.recycled_packets + BATCH_SIZE <= u64::MAX,
        s.discarded + BATCH_SIZE <= u64::MAX,
    ensures
        ({
            let t = s.after(event, discard);
            let (a, b) = (s.stats, t.stats);
            let (l, r) = (s.ledger, t.ledger);
            let received = match event {
                LoopEvent::Received(frames) => frames.len() as int,
                _ => 0,
            };
            let completed = match event {
                LoopEvent::Completed(frames) => frames.len() as int,
                _ => 0,
            };
            let taken = match event {
                LoopEvent::Produced(n) => n,
                _ => 0,
            };
            let sent = if s.task == LoopTask::Submit {
                taken
            } else {
                0
            };
            let returned = if s.task == LoopTask::Recycle {
                taken
            } else {
                0
            };
            let refilled = if s.task == LoopTask::Refill {
                taken
            } else {
                0
            };
            &&& b.rx_packets == a.rx_packets + received
            &&& b.tx_packets == a.tx_packets + sent
            &&& b.tx_bytes == a.tx_bytes + frame_bytes(s.sending.take(sent))
            &&& b.recycled_packets == a.recycled_packets + completed
            &&& b == (ThreadStats {
                rx_packets: b.rx_packets,
                tx_packets: b.tx_packets,
                tx_bytes: b.tx_bytes,
                recycled_packets: b.recycled_packets,
                ..a
            })
            &&& t.discarded == s.discarded + if discard {
                returned
            } else {
                0
            }
            &&& t.drop_simulated == s.drop_simulated
            &&& r.frames_in_fill == l.frames_in_fill - received + returned + refilled
            &&& r.frames_in_rx == l.frames_in_rx + received - returned - sent
            &&& r.frames_in_tx == l.frames_in_tx + sent - completed
            &&& r.frames_in_comp == l.frames_in_comp + completed - refilled
            &&& r.total_tx_packets == l.total_tx_packets + sent
            &&& r.total_recycled_packets == l.total_recycled_packets + completed
        }),
{
    if s.task == LoopTask::Submit {
        if let LoopEvent::Produced(n) = event {
            frame_bytes_start(s.sending, n);
            bytes_add_up(s.stats.tx_bytes, s.sending.take(n));
        }
    } else {
        assert(s.sending.take(0) =~= Seq::<FrameDesc>::empty());
        assert(frame_bytes(s.sending.take(0)) == 0);
    }
    assert(s.sending.take(0) =~= Seq::<FrameDesc>::empty());
}

proof fn frame_bytes_start(descs: Seq<FrameDesc>, n: int)
    requires
        0 <= n <= descs.len(),
    ensures
        0 <= frame_bytes(descs.take(n)) <= frame_bytes(descs),
    decreases descs.len(),
{
    if descs.len() > 0 {
        let last = descs.last();
        frame_bytes_push(descs.drop_last(), last);
        assert(descs.drop_last().push(last) =~= descs);
        if n == descs.len() {
            assert(descs.take(n) =~= descs);
        } else {
            assert(descs.drop_last().take(n) =~= descs.take(n));
            frame_bytes_start(descs.drop_last(), n);
        }
    } else {
        assert(descs.take(n) =~= descs);
    }
}

/// A ring that takes none of the frames it is offered is woken up where it asks for it,
/// and then offered the same frames again; until it takes them, nothing else changes.
pub proof fn full_ring_is_tried_again(s: LoopState, discard: bool, needed: bool)
    requires
        s.task == LoopTask::Recycle || s.task == LoopTask::Submit || s.task == LoopTask::Refill,
    ensures
        ({
            let refused = s.after(LoopEvent::Produced(0), discard);
            let asked = refused.after(LoopEvent::WakeupNeeded(needed), discard);
            &&& is_check(refused.task)
            &&& is_wake(asked.task) <==> needed
            &&& !needed ==> asked == s
            &&& needed ==> asked.after(LoopEvent::Woken, discard) == s
        }),
{
}

/// The rings are worked in turn: what was received is dealt with, then the transmit ring
/// is woken up where it asks for it, then the completion ring is emptied and its frames
/// are given back, then the fill ring is woken up where it asks for it, and the turn is
/// over.
pub proof fn rings_are_worked_in_turn(s: LoopState, discard: bool, frames: Seq<FrameDesc>)
    ensures
        s.task == LoopTask::Consume && frames.len() == 0 ==> s.after(
            LoopEvent::Received(frames),
            discard,
        ).task == LoopTask::Reap,
        s.task == LoopTask::Consume && frames.len() > 0 ==> {
            let t = s.after(LoopEvent::Received(frames), discard);
            if discard {
                t.task == LoopTask::Recycle && t.offered() == frames
            } else {
                t.task == LoopTask::Inspect && t.received == frames
            }
        },
        s.task == LoopTask::CheckTx ==> {
            let asked = s.after(LoopEvent::WakeupNeeded(true), discard);
            &&& is_wake(asked.task)
            &&& asked.after(LoopEvent::Woken, discard).task == LoopTask::Reap
            &&& s.after(LoopEvent::WakeupNeeded(false), discard).task == LoopTask::Reap
        },
        s.task == LoopTask::Reap && frames.len() > 0 ==> {
            let t = s.after(LoopEvent::Completed(frames), discard);
            t.task == LoopTask::Refill && t.offered() == frames
        },
        s.task == LoopTask::Reap && frames.len() == 0 ==> s.after(
            LoopEvent::Completed(frames),
            discard,
        ).task == LoopTask::CheckFill,
        s.task == LoopTask::CheckFill ==> {
            let asked = s.after(LoopEvent::WakeupNeeded(true), discard);
            &&& is_wake(asked.task)
            &&& asked.after(LoopEvent::Woken, discard).task == LoopTask::Report
            &&& s.after(LoopEvent::WakeupNeeded(false), discard).task == LoopTask::Report
        },
        s.task == LoopTask::Report ==> s.after(LoopEvent::Reported, discard).task
            == LoopTask::Consume,
        s.task == LoopTask::Inspect && s.received.len() > 1 ==> s.after(
            LoopEvent::Inspected(Verdict::Transmit),
            discard,
        ).task == LoopTask::Inspect,
        s.task == LoopTask::Submit && s.sending.len() > 0 ==> s.after(
            LoopEvent::Produced(s.sending.len() as int),
            discard,
        ).task == LoopTask::CheckTx,
        s.task == LoopTask::Refill && s.completed.len() > 0 ==> s.after(
            LoopEvent::Produced(s.completed.len() as int),
            discard,
        ).task == LoopTask::CheckFill,
{
}

/// The counts are in order exactly where no frame is missing and none is there twice,
/// and where no more frames are on their way than there are. A missing frame is reported
/// before one that does not come back.
pub proof fn what_health_means(ledger: FrameLedger, count: u32)
    ensures
        ledger.error(count) is None <==> {
            &&& ledger.frames_in_fill + ledger.frames_in_rx + ledger.frames_in_tx
                + ledger.frames_in_comp == count
            &&& ledger.total_tx_packets <= ledger.total_recycled_packets + count
            &&& ledger.total_recycled_packets <= ledger.total_tx_packets + count
        },
        ledger.error(count) == Some(HealthError::Leak) <==> ledger.frames_in_fill
            + ledger.frames_in_rx + ledger.frames_in_tx + ledger.frames_in_comp != count,
{
}

/// A new window starts at zero, but the histogram of packet sizes goes on.
pub proof fn window_keeps_the_histogram(stats: ThreadStats, c: Counter)
    ensures
        window_start(stats).get(c) == if c is HistPayload064 || c is HistPayload65256
            || c is HistPayload2571024 || c is HistPayload10252048 {
            stats.get(c)
        } else {
            0
        },
{
}

} // verus!
