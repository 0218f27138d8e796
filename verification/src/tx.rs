//! Sending frames: batches for the transmit ring, frames that come back from the
//! completion ring, and rings in memory that stand in for those of the kernel.
use vstd::prelude::*;

verus! {

// ---------------------------------------------------------------------------
// Frames
// ---------------------------------------------------------------------------

/// Where a frame stands in the packet buffer, and how long its packet is.
#[derive(Clone, Copy, Debug, PartialEq, Eq, Structural)]
pub struct FrameDesc {
    pub addr: u64,
    pub len: u32,
}

/// The lengths of the parts of a frame.
#[derive(Clone, Copy, Debug, PartialEq, Eq, Structural)]
pub struct FrameLengths {
    pub len: u32,
}

impl FrameDesc {
    /// The frame at `addr` with a packet of `len` bytes.
    pub fn new(addr: u64, len: u32) -> (desc: Self)
        ensures
            desc == (FrameDesc { addr, len }),
    {
        FrameDesc { addr, len }
    }

    /// Where the frame stands.
    pub fn addr(&self) -> (addr: u64)
        ensures
            addr == self.addr,
    {
        self.addr
    }

    /// The lengths of its parts.
    pub fn lengths(&self) -> (lengths: FrameLengths)
        ensures
            lengths.len == self.len,
    {
        FrameLengths { len: self.len }
    }
}

impl Default for FrameDesc {
    fn default() -> (desc: Self)
        ensures
            desc == (FrameDesc { addr: 0, len: 0 }),
    {
        FrameDesc { addr: 0, len: 0 }
    }
}

impl FrameLengths {
    /// Length of the packet.
    pub fn data(&self) -> (len: u32)
        ensures
            len == self.len,
    {
        self.len
    }
}

/// Bytes in the packets of all frames.
pub open spec fn data_bytes(descs: Seq<FrameDesc>) -> int
    decreases descs.len(),
{
    if descs.len() == 0 {
        0
    } else {
        data_bytes(descs.drop_last()) + descs.last().len
    }
}

/// The bytes of two lists of frames add up.
pub proof fn data_bytes_join(a: Seq<FrameDesc>, b: Seq<FrameDesc>)
    ensures
        data_bytes(a + b) == data_bytes(a) + data_bytes(b),
        data_bytes(a) >= 0,
        data_bytes(b) >= 0,
    decreases b.len(), a.len(),
{
    if b.len() == 0 {
        assert(a + b =~= a);
        if a.len() > 0 {
            data_bytes_join(a.drop_last(), b);
        }
    } else {
        assert((a + b).drop_last() =~= a + b.drop_last());
        data_bytes_join(a, b.drop_last());
    }
}

/// What was handed over, and then a batch, where there is anything in it.
pub open spec fn with_batch(handed: Seq<Seq<FrameDesc>>, batch: Seq<FrameDesc>) -> Seq<
    Seq<FrameDesc>,
> {
    if batch.len() == 0 {
        handed
    } else {
        handed.push(batch)
    }
}

/// The full batches at the front of some frames.
pub open spec fn full_batches(frames: Seq<FrameDesc>, size: int) -> Seq<Seq<FrameDesc>> {
    Seq::new(
        (frames.len() as int / size) as nat,
        |k: int| frames.subrange(k * size, (k + 1) * size),
    )
}

/// The frames behind the full batches.
pub open spec fn short_batch(frames: Seq<FrameDesc>, size: int) -> Seq<FrameDesc> {
    frames.skip(frames.len() - frames.len() as int % size)
}

/// How the quotient and the remainder of the next number follow from those of a
/// number.
pub proof fn next_division(n: int, size: int)
    requires
        n >= 0,
        size > 0,
    ensures
        (n + 1) / size == if n % size + 1 == size {
            n / size + 1
        } else {
            n / size
        },
        (n + 1) % size == if n % size + 1 == size {
            0
        } else {
            n % size + 1
        },
        0 <= n % size <= n,
        0 <= n / size,
        n == n / size * size + n % size,
{
    let q = n / size;
    let r = n % size;
    vstd::arithmetic::div_mod::lemma_fundamental_div_mod(n, size);
    vstd::arithmetic::div_mod::lemma_mod_bound(n, size);
    vstd::arithmetic::div_mod::lemma_div_pos_is_pos(n, size);
    assert(size * q == q * size) by (nonlinear_arith);
    if r + 1 == size {
        assert(n + 1 == (q + 1) * size) by (nonlinear_arith)
            requires
                n == size * q + r,
                r + 1 == size,
        ;
        vstd::arithmetic::div_mod::lemma_fundamental_div_mod_converse(n + 1, size, q + 1, 0);
    } else {
        vstd::arithmetic::div_mod::lemma_fundamental_div_mod_converse(n + 1, size, q, r + 1);
    }
    vstd::arithmetic::div_mod::lemma_mod_decreases(n as nat, size as nat);
}

/// One more frame fills a batch up, or leaves the full batches as they are.
pub proof fn full_batches_grow(frames: Seq<FrameDesc>, desc: FrameDesc, size: int)
    requires
        size > 0,
    ensures
        full_batches(frames.push(desc), size) == if frames.len() as int % size + 1 == size {
            full_batches(frames, size).push(frames.push(desc).skip(frames.len() + 1 - size))
        } else {
            full_batches(frames, size)
        },
{
    let n = frames.len() as int;
    let more = frames.push(desc);
    let q = n / size;
    next_division(n, size);
    assert forall|k: int| 0 <= k < q implies #[trigger] more.subrange(k * size, (k + 1) * size)
        == frames.subrange(k * size, (k + 1) * size) by {
        assert(0 <= k * size <= (k + 1) * size <= n) by (nonlinear_arith)
            requires
                0 <= k < q,
                q * size <= n,
                size > 0,
        ;
        assert(more.subrange(k * size, (k + 1) * size) =~= frames.subrange(
            k * size,
            (k + 1) * size,
        ));
    }
    if n % size + 1 == size {
        assert((q + 1) * size == n + 1) by (nonlinear_arith)
            requires
                n == q * size + n % size,
                n % size + 1 == size,
        ;
        assert(q * size == n + 1 - size);
        assert(more.subrange(q * size, (q + 1) * size) =~= more.skip(n + 1 - size));
        assert(full_batches(more, size) =~= full_batches(frames, size).push(
            more.skip(n + 1 - size),
        ));
    } else {
        assert(full_batches(more, size) =~= full_batches(frames, size));
    }
}

/// The packet buffer.
#[derive(Debug)]
pub struct Umem {
    storage: Vec<u8>,
}

/// The packet in a frame.
#[derive(Debug)]
pub struct UmemData<'a> {
    pub slice: &'a [u8],
}

/// The packet in a frame, to be changed in place.
#[derive(Debug)]
pub struct UmemDataMut<'a> {
    pub slice: &'a mut [u8],
}

impl Umem {
    /// Every byte of the buffer.
    pub closed spec fn bytes(self) -> Seq<u8> {
        self.storage@
    }

    /// The packet of `desc` lies in the buffer.
    pub open spec fn holds(self, desc: FrameDesc) -> bool {
        desc.addr + desc.len <= self.bytes().len()
    }

    /// The packet of `desc`.
    pub open spec fn packet(self, desc: FrameDesc) -> Seq<u8> {
        self.bytes().subrange(desc.addr as int, desc.addr + desc.len)
    }

    /// Whether the packet of `desc` lies in the buffer.
    pub fn contains(&self, desc: &FrameDesc) -> (yes: bool)
        ensures
            yes == self.holds(*desc),
    {
        let size: usize = self.storage.len();
        desc.addr <= size as u64 && desc.len as u64 <= size as u64 - desc.addr
    }

    /// A buffer of zeroes, and its frames of 2048 bytes.
    pub fn new_mock(size: usize) -> (r: (Self, Vec<FrameDesc>))
        ensures
            r.0.bytes() == Seq::new(size as nat, |i: int| 0u8),
            r.1@.len() == size / 2048,
            forall|i: int|
                0 <= i < r.1@.len() ==> #[trigger] r.1@[i] == (FrameDesc {
                    addr: (i * 2048) as u64,
                    len: 2048,
                }),
    {
        let mut storage: Vec<u8> = Vec::new();
        storage.resize(size, 0u8);
        assert(storage@ =~= Seq::new(size as nat, |i: int| 0u8));
        let mut descs: Vec<FrameDesc> = Vec::new();
        let mut i: usize = 0;
        while i < size / 2048
            invariant
                i <= size / 2048,
                descs@.len() == i,
                forall|j: int|
                    0 <= j < i ==> #[trigger] descs@[j] == (FrameDesc {
                        addr: (j * 2048) as u64,
                        len: 2048,
                    }),
            decreases size / 2048 - i,
        {
            descs.push(FrameDesc { addr: (i * 2048) as u64, len: 2048 });
            i = i + 1;
        }
        (Umem { storage }, descs)
    }

    /// The packet in a frame.
    pub fn data(&self, desc: &FrameDesc) -> (data: UmemData<'_>)
        requires
            self.holds(*desc),
        ensures
            data.slice@ == self.packet(*desc),
    {
        let size: usize = self.storage.len();
        assert(desc.addr <= size);
        let from: usize = desc.addr as usize;
        let to: usize = from + desc.len as usize;
        UmemData { slice: vstd::slice::slice_subrange(self.storage.as_slice(), from, to) }
    }

    /// The packet in a frame, to be changed in place.
    pub fn data_mut(&mut self, desc: &FrameDesc) -> (data: UmemDataMut<'_>)
        requires
            old(self).holds(*desc),
        ensures
            data.slice@ == old(self).packet(*desc),
            final(self).bytes() == old(self).bytes().take(desc.addr as int) + final(data.slice)@
                + old(self).bytes().skip(desc.addr + desc.len),
    {
        let size: usize = self.storage.len();
        assert(desc.addr <= size);
        let from: usize = desc.addr as usize;
        let len: usize = desc.len as usize;
        let (front, rest) = self.storage.as_mut_slice().split_at_mut(from);
        let (packet, back) = rest.split_at_mut(len);
        UmemDataMut { slice: packet }
    }
}

impl<'a> UmemData<'a> {
    /// The bytes of the packet.
    pub fn contents(&self) -> (bytes: &[u8])
        ensures
            bytes@ == self.slice@,
    {
        self.slice
    }
}

impl<'a> UmemDataMut<'a> {
    /// The bytes of the packet, to be changed in place.
    pub fn contents_mut(&mut self) -> (bytes: &mut [u8])
        ensures
            bytes@ == old(self).slice@,
            final(self).slice@ == final(bytes)@,
            final(final(self).slice)@ == final(old(self).slice)@,
    {
        self.slice
    }
}

// ---------------------------------------------------------------------------
// Rings in memory
// ---------------------------------------------------------------------------

/// A ring could not be woken up.
#[derive(Clone, Copy, Debug, PartialEq, Eq, Structural)]
pub enum RingError {
    Wakeup,
}

/// Frames between the transmit ring and the completion ring, the first to come
/// back first.
pub struct InFlight {
    descs: Vec<FrameDesc>,
    handed: Ghost<Seq<Seq<FrameDesc>>>,
}

impl View for InFlight {
    type V = Seq<FrameDesc>;

    closed spec fn view(&self) -> Seq<FrameDesc> {
        self.descs@
    }
}

impl InFlight {
    /// What was handed over for sending so far, one entry for each time.
    pub closed spec fn handed(self) -> Seq<Seq<FrameDesc>> {
        self.handed@
    }

    /// No frame is on its way, and none ever was.
    pub fn new() -> (ring: Self)
        ensures
            ring@ == Seq::<FrameDesc>::empty(),
            ring.handed() == Seq::<Seq<FrameDesc>>::empty(),
    {
        InFlight { descs: Vec::new(), handed: Ghost(Seq::empty()) }
    }

    /// Number of frames on their way.
    pub fn len(&self) -> (n: usize)
        ensures
            n == self@.len(),
    {
        self.descs.len()
    }
}

/// The transmit ring.
#[derive(Clone, Copy, Debug)]
pub struct TxQueue {}

impl TxQueue {
    pub fn new() -> (q: Self)
        ensures
            q == (TxQueue {  }),
    {
        TxQueue {  }
    }

    /// Takes frames over for sending; returns how many it took, which is all.
    pub fn produce(&mut self, ring: &mut InFlight, descs: &[FrameDesc]) -> (n: usize)
        ensures
            n == descs@.len(),
            final(ring)@ == old(ring)@ + descs@,
            final(ring).handed() == old(ring).handed().push(descs@),
    {
        ring.handed = Ghost(ring.handed@.push(descs@));
        let mut i: usize = 0;
        assert(ring@ =~= old(ring)@ + descs@.take(0));
        while i < descs.len()
            invariant
                i <= descs@.len(),
                ring@ == old(ring)@ + descs@.take(i as int),
                ring.handed() == old(ring).handed().push(descs@),
            decreases descs@.len() - i,
        {
            ring.descs.push(descs[i]);
            i = i + 1;
            assert(ring@ =~= old(ring)@ + descs@.take(i as int));
        }
        assert(descs@.take(i as int) =~= descs@);
        i
    }

    /// Whether the ring has to be woken up, which it never has.
    pub fn needs_wakeup(&self) -> (yes: bool)
        ensures
            !yes,
    {
        false
    }

    /// Wakes the ring up.
    pub fn wakeup(&self) -> (r: Result<(), RingError>)
        ensures
            r == Ok::<(), RingError>(()),
    {
        Ok(())
    }
}

impl Default for TxQueue {
    fn default() -> (q: Self)
        ensures
            q == (TxQueue {  }),
    {
        TxQueue::new()
    }
}

/// The completion ring.
#[derive(Clone, Copy, Debug)]
pub struct CompQueue {}

impl CompQueue {
    pub fn new() -> (q: Self)
        ensures
            q == (CompQueue {  }),
    {
        CompQueue {  }
    }

    /// Fills the list with frames that came back, as far as there are any, and
    /// returns their number.
    pub fn consume(&mut self, ring: &mut InFlight, descs: &mut [FrameDesc]) -> (n: usize)
        ensures
            n == if old(descs)@.len() <= old(ring)@.len() {
                old(descs)@.len()
            } else {
                old(ring)@.len()
            },
            final(ring)@ == old(ring)@.skip(n as int),
            final(ring).handed() == old(ring).handed(),
            final(descs)@ == old(ring)@.take(n as int) + old(descs)@.skip(n as int),
    {
        let n: usize = if descs.len() <= ring.descs.len() {
            descs.len()
        } else {
            ring.descs.len()
        };
        let mut i: usize = 0;
        assert(ring@ =~= old(ring)@.skip(0));
        while i < n
            invariant
                i <= n,
                n <= old(ring)@.len(),
                n <= old(descs)@.len(),
                ring@ == old(ring)@.skip(i as int),
                ring.handed() == old(ring).handed(),
                descs@.len() == old(descs)@.len(),
                forall|j: int|
                    0 <= j < descs@.len() ==> #[trigger] descs@[j] == if j < i {
                        old(ring)@[j]
                    } else {
                        old(descs)@[j]
                    },
            decreases n - i,
        {
            descs[i] = ring.descs.remove(0);
            assert(old(ring)@.skip(i as int).skip(1) =~= old(ring)@.skip(i + 1));
            assert(ring@ =~= old(ring)@.skip(i + 1));
            i = i + 1;
        }
        assert(descs@ =~= old(ring)@.take(n as int) + old(descs)@.skip(n as int));
        n
    }
}

impl Default for CompQueue {
    fn default() -> (q: Self)
        ensures
            q == (CompQueue {  }),
    {
        CompQueue::new()
    }
}

/// The fill ring.
pub struct FillQueue {
    taken: Ghost<Seq<FrameDesc>>,
    handed: Ghost<Seq<Seq<FrameDesc>>>,
}

impl View for FillQueue {
    type V = Seq<FrameDesc>;

    /// The frames that the ring took over for receiving, in their order.
    closed spec fn view(&self) -> Seq<FrameDesc> {
        self.taken@
    }
}

impl FillQueue {
    /// What was handed over for receiving so far, one entry for each time.
    pub closed spec fn handed(self) -> Seq<Seq<FrameDesc>> {
        self.handed@
    }

    /// A ring that took over no frame yet.
    pub fn new() -> (q: Self)
        ensures
            q@ == Seq::<FrameDesc>::empty(),
            q.handed() == Seq::<Seq<FrameDesc>>::empty(),
    {
        FillQueue { taken: Ghost(Seq::empty()), handed: Ghost(Seq::empty()) }
    }

    /// Takes frames over for receiving; returns how many it took, which is all.
    pub fn produce(&mut self, descs: &[FrameDesc]) -> (n: usize)
        ensures
            n == descs@.len(),
            final(self)@ == old(self)@ + descs@,
            final(self).handed() == old(self).handed().push(descs@),
    {
        self.taken = Ghost(self.taken@ + descs@);
        self.handed = Ghost(self.handed@.push(descs@));
        descs.len()
    }

    /// Whether the ring has to be woken up, which it never has.
    pub fn needs_wakeup(&self) -> (yes: bool)
        ensures
            !yes,
    {
        false
    }

    /// Wakes the ring up.
    pub fn wakeup(&mut self, _fd: &mut Fd, _timeout: i32) -> (r: Result<(), RingError>)
        ensures
            r == Ok::<(), RingError>(()),
            final(self)@ == old(self)@,
            final(self).handed() == old(self).handed(),
    {
        Ok(())
    }
}

impl Default for FillQueue {
    fn default() -> (q: Self)
        ensures
            q@ == Seq::<FrameDesc>::empty(),
            q.handed() == Seq::<Seq<FrameDesc>>::empty(),
    {
        FillQueue::new()
    }
}

/// The receive ring.
#[derive(Clone, Copy, Debug)]
pub struct RxQueue {
    pub fd: Fd,
}

/// The handle of a socket.
#[derive(Clone, Copy, Debug)]
pub struct Fd {}

impl RxQueue {
    pub fn new() -> (q: Self)
        ensures
            q == (RxQueue { fd: Fd {  } }),
    {
        RxQueue { fd: Fd {  } }
    }

    /// Fills the list with frames that were received; there are none.
    pub fn consume(&mut self, descs: &mut [FrameDesc]) -> (n: usize)
        ensures
            n == 0,
            final(descs)@ == old(descs)@,
    {
        0
    }

    /// The handle of the socket.
    pub fn fd_mut(&mut self) -> (fd: &mut Fd)
        ensures
            *fd == old(self).fd,
            final(self).fd == *final(fd),
    {
        &mut self.fd
    }
}

impl Default for RxQueue {
    fn default() -> (q: Self)
        ensures
            q == (RxQueue { fd: Fd {  } }),
    {
        RxQueue::new()
    }
}

// ---------------------------------------------------------------------------
// Batches
// ---------------------------------------------------------------------------

/// What was sent and what came back.
#[derive(Clone, Copy, Debug, PartialEq, Eq, Structural)]
pub struct CacheAlignedStats {
    pub tx_packets: u64,
    pub tx_bytes: u64,
    pub recycled_packets: u64,
}

impl Default for CacheAlignedStats {
    fn default() -> (stats: Self)
        ensures
            stats == (CacheAlignedStats { tx_packets: 0, tx_bytes: 0, recycled_packets: 0 }),
    {
        CacheAlignedStats { tx_packets: 0, tx_bytes: 0, recycled_packets: 0 }
    }
}

impl CacheAlignedStats {
    /// The counters after `descs` were sent.
    pub open spec fn with_sent(self, descs: Seq<FrameDesc>) -> CacheAlignedStats {
        CacheAlignedStats {
            tx_packets: (self.tx_packets + descs.len()) as u64,
            tx_bytes: (self.tx_bytes + data_bytes(descs)) as u64,
            ..self
        }
    }

    /// The counters have room for `descs` being sent.
    pub open spec fn room_for_sent(self, descs: Seq<FrameDesc>) -> bool {
        &&& self.tx_packets + descs.len() <= u64::MAX
        &&& self.tx_bytes + data_bytes(descs) <= u64::MAX
    }

    /// The counters after `n` frames came back.
    pub open spec fn with_recycled(self, n: int) -> CacheAlignedStats {
        CacheAlignedStats { recycled_packets: (self.recycled_packets + n) as u64, ..self }
    }
}

/// Where a batch stands.
#[verifier::ext_equal]
pub struct BatchState {
    /// Frames that the ring has not taken over yet, in their order.
    pub queued: Seq<FrameDesc>,
    /// Frames that it has taken over since the flush began.
    pub flushed: int,
    pub stats: CacheAlignedStats,
}

/// What happened while a batch is flushed.
#[derive(Clone, Copy, Debug, PartialEq, Eq, Structural)]
pub enum FlushEvent {
    /// The flush begins.
    Begin,
    /// The ring took over this many of the frames that were offered.
    Accepted(usize),
    /// Whether the ring has to be woken up.
    WakeupNeeded(bool),
    /// Waking the ring up succeeded or failed.
    Woken(bool),
}

/// What to do next while a batch is flushed.
#[derive(Clone, Copy, Debug, PartialEq, Eq, Structural)]
pub enum FlushAction {
    /// Offer the pending frames to the ring.
    Submit,
    /// Find out whether the ring has to be woken up.
    CheckWakeup,
    /// Wake the ring up.
    Wake,
    /// The flush is over; so many frames went out.
    Done(usize),
    /// The flush is over because the ring could not be woken up.
    Failed,
}

/// The end of a flush where nothing is left, and another try where something is.
pub open spec fn go_on(s: BatchState) -> (BatchState, FlushAction) {
    if s.queued.len() == 0 {
        (BatchState { flushed: 0, ..s }, FlushAction::Done(s.flushed as usize))
    } else {
        (s, FlushAction::Submit)
    }
}

/// One step of a flush.
pub open spec fn flush_step(s: BatchState, event: FlushEvent) -> (BatchState, FlushAction) {
    match event {
        FlushEvent::Begin => go_on(BatchState { flushed: 0, ..s }),
        FlushEvent::Accepted(n) => {
            let next = BatchState {
                queued: s.queued.skip(n as int),
                flushed: s.flushed + n,
                stats: s.stats.with_sent(s.queued.take(n as int)),
            };
            if n == 0 {
                (s, FlushAction::CheckWakeup)
            } else if next.queued.len() == 0 {
                (next, FlushAction::CheckWakeup)
            } else {
                (next, FlushAction::Submit)
            }
        },
        FlushEvent::WakeupNeeded(needed) => if needed {
            (s, FlushAction::Wake)
        } else {
            go_on(s)
        },
        FlushEvent::Woken(ok) => if ok {
            go_on(s)
        } else {
            (BatchState { flushed: 0, ..s }, FlushAction::Failed)
        },
    }
}

/// Collects frames and hands them to the transmit ring in batches.
#[derive(Debug)]
pub struct TxBatcher {
    buffer: Vec<FrameDesc>,
    flushed: usize,
    batch_size: usize,
    stats: CacheAlignedStats,
}

impl TxBatcher {
    /// The first `flushed` frames of the buffer are out. A buffer that is all out
    /// is empty.
    pub closed spec fn wf(self) -> bool {
        self.buffer@.len() == 0 || self.flushed < self.buffer@.len()
    }

    /// Where the batch stands.
    pub closed spec fn state(self) -> BatchState {
        BatchState {
            queued: if self.buffer@.len() == 0 {
                Seq::empty()
            } else {
                self.buffer@.skip(self.flushed as int)
            },
            flushed: self.flushed as int,
            stats: self.stats,
        }
    }

    /// Number of frames from which on a batch is due.
    pub closed spec fn size(self) -> usize {
        self.batch_size
    }

    /// An empty batch.
    pub fn new(batch_size: usize) -> (batcher: Self)
        ensures
            batcher.wf(),
            batcher.size() == batch_size,
            batcher.state() == (BatchState {
                queued: Seq::empty(),
                flushed: 0,
                stats: CacheAlignedStats { tx_packets: 0, tx_bytes: 0, recycled_packets: 0 },
            }),
    {
        TxBatcher {
            buffer: Vec::new(),
            flushed: 0,
            batch_size,
            stats: CacheAlignedStats::default(),
        }
    }

    /// Adds a frame; returns whether the batch is due to be flushed.
    pub fn enqueue(&mut self, desc: FrameDesc) -> (due: bool)
        requires
            old(self).wf(),
            old(self).state().flushed == 0,
        ensures
            final(self).wf(),
            final(self).size() == old(self).size(),
            final(self).state() == (BatchState {
                queued: old(self).state().queued.push(desc),
                ..old(self).state()
            }),
            due == (final(self).state().queued.len() >= old(self).size()),
    {
        self.buffer.push(desc);
        assert(self.state().queued =~= old(self).state().queued.push(desc));
        self.buffer.len() >= self.batch_size
    }

    /// The frames to offer to the ring.
    pub fn pending(&self) -> (descs: &[FrameDesc])
        requires
            self.wf(),
        ensures
            descs@ == self.state().queued,
    {
        if self.buffer.len() == 0 {
            self.buffer.as_slice()
        } else {
            vstd::slice::slice_subrange(self.buffer.as_slice(), self.flushed, self.buffer.len())
        }
    }

    /// Takes in what happened while the batch is flushed, and says what to do
    /// next.
    pub fn step(&mut self, event: FlushEvent) -> (action: FlushAction)
        requires
            old(self).wf(),
            event is Begin ==> old(self).state().flushed == 0,
            event matches FlushEvent::Accepted(n) ==> {
                &&& n <= old(self).state().queued.len()
                &&& old(self).state().stats.room_for_sent(old(self).state().queued.take(n as int))
            },
        ensures
            final(self).wf(),
            final(self).size() == old(self).size(),
            (final(self).state(), action) == flush_step(old(self).state(), event),
    {
        match event {
            FlushEvent::Begin => self.go_on(),
            FlushEvent::Accepted(n) => {
                if n == 0 {
                    return FlushAction::CheckWakeup;
                }
                self.account(n);
                let len: usize = self.buffer.len();
                assert(self.flushed + n <= len);
                let ghost queued = self.buffer@.skip(self.flushed as int);
                self.flushed = self.flushed + n;
                assert(self.buffer@.skip(self.flushed as int) =~= queued.skip(n as int));
                if self.flushed == self.buffer.len() {
                    self.buffer.clear();
                    assert(queued.skip(n as int) =~= Seq::<FrameDesc>::empty());
                    FlushAction::CheckWakeup
                } else {
                    FlushAction::Submit
                }
            },
            FlushEvent::WakeupNeeded(needed) => if needed {
                FlushAction::Wake
            } else {
                self.go_on()
            },
            FlushEvent::Woken(ok) => if ok {
                self.go_on()
            } else {
                self.forget_flushed();
                FlushAction::Failed
            },
        }
    }

    fn go_on(&mut self) -> (action: FlushAction)
        requires
            old(self).wf(),
        ensures
            final(self).wf(),
            final(self).size() == old(self).size(),
            (final(self).state(), action) == go_on(old(self).state()),
    {
        if self.buffer.len() == 0 {
            let n: usize = self.flushed;
            self.flushed = 0;
            FlushAction::Done(n)
        } else {
            FlushAction::Submit
        }
    }

    /// Removes the frames that are out from the buffer.
    fn forget_flushed(&mut self)
        requires
            old(self).wf(),
        ensures
            final(self).wf(),
            final(self).size() == old(self).size(),
            final(self).state() == (BatchState { flushed: 0, ..old(self).state() }),
    {
        if self.buffer.len() > 0 {
            let rest: Vec<FrameDesc> = self.buffer.split_off(self.flushed);
            self.buffer = rest;
            assert(self.buffer@.skip(0) =~= self.buffer@);
            assert(old(self).buffer@.skip(old(self).flushed as int) =~= self.buffer@);
        }
        self.flushed = 0;
    }

    /// Counts the next `n` frames as sent.
    fn account(&mut self, n: usize)
        requires
            old(self).wf(),
            n <= old(self).state().queued.len(),
            old(self).state().stats.room_for_sent(old(self).state().queued.take(n as int)),
        ensures
            final(self).buffer == old(self).buffer,
            final(self).flushed == old(self).flushed,
            final(self).batch_size == old(self).batch_size,
            final(self).stats == old(self).stats.with_sent(
                old(self).state().queued.take(n as int),
            ),
    {
        let ghost sent = self.state().queued.take(n as int);
        let ghost before = self.stats;
        let len: usize = self.buffer.len();
        let mut i: usize = 0;
        let mut bytes: u64 = self.stats.tx_bytes;
        assert(sent.take(0) =~= Seq::<FrameDesc>::empty());
        while i < n
            invariant
                i <= n,
                n == sent.len(),
                len == self.buffer@.len(),
                n > 0 ==> self.flushed + n <= len,
                forall|j: int| 0 <= j < n ==> #[trigger] sent[j] == self.buffer@[self.flushed + j],
                bytes == before.tx_bytes + data_bytes(sent.take(i as int)),
                before.tx_bytes + data_bytes(sent) <= u64::MAX,
            decreases n - i,
        {
            proof {
                assert(sent.take(i + 1).drop_last() =~= sent.take(i as int));
                assert(sent.take(i + 1).last() == sent[i as int]);
                data_bytes_grow(sent, i + 1);
            }
            bytes = bytes + self.buffer[self.flushed + i].lengths().data() as u64;
            i = i + 1;
        }
        assert(sent.take(i as int) =~= sent);
        self.stats = CacheAlignedStats {
            tx_packets: self.stats.tx_packets + n as u64,
            tx_bytes: bytes,
            recycled_packets: self.stats.recycled_packets,
        };
    }

    /// Hands the whole batch to a transmit ring in memory; returns how many frames
    /// went out.
    pub fn flush(&mut self, tx_q: &mut TxQueue, ring: &mut InFlight) -> (n: usize)
        requires
            old(self).wf(),
            old(self).state().flushed == 0,
            old(self).state().stats.room_for_sent(old(self).state().queued),
        ensures
            final(self).wf(),
            final(self).size() == old(self).size(),
            n == old(self).state().queued.len(),
            final(ring)@ == old(ring)@ + old(self).state().queued,
            final(ring).handed() == with_batch(old(ring).handed(), old(self).state().queued),
            final(self).state() == (BatchState {
                queued: Seq::empty(),
                flushed: 0,
                stats: old(self).state().stats.with_sent(old(self).state().queued),
            }),
    {
        let ghost queued = self.state().queued;
        assert(queued.take(queued.len() as int) =~= queued);
        assert(queued.skip(queued.len() as int) =~= Seq::<FrameDesc>::empty());
        if self.pending().len() == 0 {
            assert(ring@ =~= old(ring)@ + queued);
            return 0;
        }
        let _ = self.step(FlushEvent::Begin);
        let accepted: usize = tx_q.produce(ring, self.pending());
        let _ = self.step(FlushEvent::Accepted(accepted));
        let _ = self.step(FlushEvent::WakeupNeeded(tx_q.needs_wakeup()));
        accepted
    }

    /// What was sent and what came back.
    pub fn stats(&self) -> (stats: &CacheAlignedStats)
        ensures
            *stats == self.state().stats,
    {
        &self.stats
    }

    /// Sets the counters to zero.
    pub fn reset_stats(&mut self)
        requires
            old(self).wf(),
        ensures
            final(self).wf(),
            final(self).size() == old(self).size(),
            final(self).state() == (BatchState {
                stats: CacheAlignedStats { tx_packets: 0, tx_bytes: 0, recycled_packets: 0 },
                ..old(self).state()
            }),
    {
        self.stats = CacheAlignedStats::default();
    }
}

proof fn data_bytes_grow(descs: Seq<FrameDesc>, n: int)
    requires
        0 <= n <= descs.len(),
    ensures
        0 <= data_bytes(descs.take(n)) <= data_bytes(descs),
    decreases descs.len(),
{
    if n == descs.len() {
        assert(descs.take(n) =~= descs);
        if n > 0 {
            data_bytes_grow(descs.drop_last(), n - 1);
        }
    } else {
        assert(descs.drop_last().take(n) =~= descs.take(n));
        data_bytes_grow(descs.drop_last(), n);
    }
}

// ---------------------------------------------------------------------------
// Forwarding
// ---------------------------------------------------------------------------

/// Where the return of frames stands.
#[verifier::ext_equal]
pub struct ReclaimState {
    /// Frames that came back and are not in use again yet, in their order.
    pub pending: Seq<FrameDesc>,
    /// Frames that are in use again since the return began.
    pub recycled: int,
    pub stats: CacheAlignedStats,
}

/// What happened while frames are returned.
#[derive(Debug)]
pub enum ReclaimEvent {
    /// The return begins.
    Begin,
    /// These frames came back from the completion ring.
    Consumed(Vec<FrameDesc>),
    /// The fill ring took over this many of the pending frames.
    Refilled(usize),
    /// Whether the fill ring has to be woken up.
    WakeupNeeded(bool),
    /// Waking the fill ring up succeeded or failed.
    Woken(bool),
}

/// What to do next while frames are returned.
#[derive(Clone, Copy, Debug, PartialEq, Eq, Structural)]
pub enum ReclaimAction {
    /// Take up to this many frames from the completion ring.
    Consume(usize),
    /// Offer the pending frames to the fill ring.
    Refill,
    /// Find out whether the fill ring has to be woken up.
    CheckWakeup,
    /// Wake the fill ring up.
    Wake,
    /// The return is over; so many frames are in use again.
    Done(usize),
    /// The return is over because the ring could not be woken up.
    Failed,
}

/// One step of the return of frames, `limit` at a time.
pub open spec fn reclaim_step(s: ReclaimState, event: ReclaimEvent, limit: usize) -> (
    ReclaimState,
    ReclaimAction,
) {
    match event {
        ReclaimEvent::Begin => (
            ReclaimState { recycled: 0, ..s },
            if s.pending.len() > 0 {
                ReclaimAction::Refill
            } else {
                ReclaimAction::Consume(limit)
            },
        ),
        ReclaimEvent::Consumed(descs) => (
            ReclaimState { pending: s.pending + descs@, ..s },
            if s.pending.len() + descs@.len() > 0 {
                ReclaimAction::Refill
            } else {
                ReclaimAction::Done(0)
            },
        ),
        ReclaimEvent::Refilled(n) => {
            let next = ReclaimState {
                pending: s.pending.skip(n as int),
                recycled: s.recycled + n,
                stats: s.stats.with_recycled(n as int),
            };
            if n == 0 {
                (s, ReclaimAction::CheckWakeup)
            } else if next.pending.len() == 0 {
                (
                    ReclaimState { recycled: 0, ..next },
                    ReclaimAction::Done(next.recycled as usize),
                )
            } else {
                (next, ReclaimAction::Refill)
            }
        },
        ReclaimEvent::WakeupNeeded(needed) => (
            s,
            if needed {
                ReclaimAction::Wake
            } else {
                ReclaimAction::Refill
            },
        ),
        ReclaimEvent::Woken(ok) => if ok {
            (s, ReclaimAction::Refill)
        } else {
            (ReclaimState { recycled: 0, ..s }, ReclaimAction::Failed)
        },
    }
}

/// Sends frames on in batches and puts those that come back into use again.
#[derive(Debug)]
pub struct OptimizedForwarder {
    batcher: TxBatcher,
    pending_reclaim: Vec<FrameDesc>,
    recycled: usize,
}

impl OptimizedForwarder {
    pub closed spec fn wf(self) -> bool {
        self.batcher.wf()
    }

    /// Where the batch stands.
    pub closed spec fn batch(self) -> BatchState {
        self.batcher.state()
    }

    /// Where the return of frames stands.
    pub closed spec fn reclaim(self) -> ReclaimState {
        ReclaimState {
            pending: self.pending_reclaim@,
            recycled: self.recycled as int,
            stats: self.batcher.state().stats,
        }
    }

    /// Number of frames in a batch, and of those that are returned at a time.
    pub closed spec fn size(self) -> usize {
        self.batcher.size()
    }

    /// The batch and the return of frames count in the same place.
    pub proof fn stats_agree(self)
        ensures
            self.reclaim().stats == self.batch().stats,
    {
    }

    /// Nothing is collected, on its way or pending.
    pub fn new(batch_size: usize) -> (forwarder: Self)
        ensures
            forwarder.wf(),
            forwarder.size() == batch_size,
            forwarder.batch() == (BatchState {
                queued: Seq::empty(),
                flushed: 0,
                stats: CacheAlignedStats { tx_packets: 0, tx_bytes: 0, recycled_packets: 0 },
            }),
            forwarder.reclaim() == (ReclaimState {
                pending: Seq::empty(),
                recycled: 0,
                stats: CacheAlignedStats { tx_packets: 0, tx_bytes: 0, recycled_packets: 0 },
            }),
    {
        OptimizedForwarder {
            batcher: TxBatcher::new(batch_size),
            pending_reclaim: Vec::new(),
            recycled: 0,
        }
    }

    /// Adds a frame to the batch; returns whether the batch is due to be flushed.
    pub fn enqueue(&mut self, desc: FrameDesc) -> (due: bool)
        requires
            old(self).wf(),
            old(self).batch().flushed == 0,
        ensures
            final(self).wf(),
            final(self).size() == old(self).size(),
            final(self).batch() == (BatchState {
                queued: old(self).batch().queued.push(desc),
                ..old(self).batch()
            }),
            final(self).reclaim() == old(self).reclaim(),
            due == (final(self).batch().queued.len() >= old(self).size()),
    {
        self.batcher.enqueue(desc)
    }

    /// The frames to offer to the transmit ring.
    pub fn pending(&self) -> (descs: &[FrameDesc])
        requires
            self.wf(),
        ensures
            descs@ == self.batch().queued,
    {
        self.batcher.pending()
    }

    /// Takes in what happened while the batch is flushed, and says what to do
    /// next.
    pub fn flush_step(&mut self, event: FlushEvent) -> (action: FlushAction)
        requires
            old(self).wf(),
            event is Begin ==> old(self).batch().flushed == 0,
            event matches FlushEvent::Accepted(n) ==> {
                &&& n <= old(self).batch().queued.len()
                &&& old(self).batch().stats.room_for_sent(old(self).batch().queued.take(n as int))
            },
        ensures
            final(self).wf(),
            final(self).size() == old(self).size(),
            (final(self).batch(), action) == flush_step(old(self).batch(), event),
            final(self).reclaim() == (ReclaimState {
                stats: final(self).batch().stats,
                ..old(self).reclaim()
            }),
    {
        self.batcher.step(event)
    }

    /// The frames to offer to the fill ring.
    pub fn pending_reclaim(&self) -> (descs: &[FrameDesc])
        ensures
            descs@ == self.reclaim().pending,
    {
        self.pending_reclaim.as_slice()
    }

    /// Takes in what happened while frames are returned, and says what to do next.
    pub fn reclaim_step(&mut self, event: ReclaimEvent) -> (action: ReclaimAction)
        requires
            old(self).wf(),
            event matches ReclaimEvent::Refilled(n) ==> {
                &&& n <= old(self).reclaim().pending.len()
                &&& old(self).reclaim().recycled + n <= usize::MAX
                &&& old(self).reclaim().stats.recycled_packets + n <= u64::MAX
            },
        ensures
            final(self).wf(),
            final(self).size() == old(self).size(),
            (final(self).reclaim(), action) == reclaim_step(
                old(self).reclaim(),
                event,
                old(self).size(),
            ),
            final(self).batch() == (BatchState {
                stats: final(self).reclaim().stats,
                ..old(self).batch()
            }),
    {
        match event {
            ReclaimEvent::Begin => {
                self.recycled = 0;
                if self.pending_reclaim.len() > 0 {
                    ReclaimAction::Refill
                } else {
                    ReclaimAction::Consume(self.batcher.batch_size)
                }
            },
            ReclaimEvent::Consumed(descs) => {
                let mut descs: Vec<FrameDesc> = descs;
                self.pending_reclaim.append(&mut descs);
                if self.pending_reclaim.len() > 0 {
                    ReclaimAction::Refill
                } else {
                    ReclaimAction::Done(0)
                }
            },
            ReclaimEvent::Refilled(n) => {
                if n == 0 {
                    return ReclaimAction::CheckWakeup;
                }
                self.batcher.stats.recycled_packets = self.batcher.stats.recycled_packets
                    + n as u64;
                self.recycled = self.recycled + n;
                let rest: Vec<FrameDesc> = self.pending_reclaim.split_off(n);
                assert(rest@ =~= old(self).pending_reclaim@.skip(n as int));
                self.pending_reclaim = rest;
                if self.pending_reclaim.len() == 0 {
                    let total: usize = self.recycled;
                    self.recycled = 0;
                    ReclaimAction::Done(total)
                } else {
                    ReclaimAction::Refill
                }
            },
            ReclaimEvent::WakeupNeeded(needed) => if needed {
                ReclaimAction::Wake
            } else {
                ReclaimAction::Refill
            },
            ReclaimEvent::Woken(ok) => if ok {
                ReclaimAction::Refill
            } else {
                self.recycled = 0;
                ReclaimAction::Failed
            },
        }
    }

    /// What was sent and what came back.
    pub fn stats(&self) -> (stats: &CacheAlignedStats)
        ensures
            *stats == self.batch().stats,
            *stats == self.reclaim().stats,
    {
        self.batcher.stats()
    }

    /// Adds a frame to the batch and hands a batch that is due to a transmit ring
    /// in memory; returns how many frames went out.
    pub fn forward(&mut self, tx_q: &mut TxQueue, ring: &mut InFlight, desc: FrameDesc) -> (n:
        usize)
        requires
            old(self).wf(),
            old(self).batch().flushed == 0,
            old(self).batch().stats.room_for_sent(old(self).batch().queued.push(desc)),
        ensures
            final(self).wf(),
            final(self).size() == old(self).size(),
            final(self).batch().flushed == 0,
            final(self).reclaim() == (ReclaimState {
                stats: final(self).batch().stats,
                ..old(self).reclaim()
            }),
            ({
                let all = old(self).batch().queued.push(desc);
                if all.len() >= old(self).size() {
                    &&& n == all.len()
                    &&& final(self).batch().queued == Seq::<FrameDesc>::empty()
                    &&& final(self).batch().stats == old(self).batch().stats.with_sent(all)
                    &&& final(ring)@ == old(ring)@ + all
                    &&& final(ring).handed() == old(ring).handed().push(all)
                } else {
                    &&& n == 0
                    &&& final(self).batch().queued == all
                    &&& final(self).batch().stats == old(self).batch().stats
                    &&& final(ring)@ == old(ring)@
                    &&& final(ring).handed() == old(ring).handed()
                }
            }),
    {
        if self.batcher.enqueue(desc) {
            self.batcher.flush(tx_q, ring)
        } else {
            0
        }
    }

    /// Hands the whole batch to a transmit ring in memory; returns how many frames
    /// went out.
    pub fn flush(&mut self, tx_q: &mut TxQueue, ring: &mut InFlight) -> (n: usize)
        requires
            old(self).wf(),
            old(self).batch().flushed == 0,
            old(self).batch().stats.room_for_sent(old(self).batch().queued),
        ensures
            final(self).wf(),
            final(self).size() == old(self).size(),
            n == old(self).batch().queued.len(),
            final(ring)@ == old(ring)@ + old(self).batch().queued,
            final(ring).handed() == with_batch(old(ring).handed(), old(self).batch().queued),
            final(self).batch() == (BatchState {
                queued: Seq::empty(),
                flushed: 0,
                stats: old(self).batch().stats.with_sent(old(self).batch().queued),
            }),
            final(self).reclaim() == (ReclaimState {
                stats: final(self).batch().stats,
                ..old(self).reclaim()
            }),
    {
        self.batcher.flush(tx_q, ring)
    }

    /// Puts frames into use again, over rings in memory: those that are pending,
    /// or where there are none up to a batch of those that came back. Returns
    /// their number.
    pub fn reclaim_completed(
        &mut self,
        cq: &mut CompQueue,
        fq: &mut FillQueue,
        ring: &mut InFlight,
    ) -> (n: usize)
        requires
            old(self).wf(),
            old(self).reclaim().recycled == 0,
            old(self).reclaim().stats.recycled_packets + old(self).reclaim().pending.len()
                <= u64::MAX,
            old(self).reclaim().stats.recycled_packets + old(ring)@.len() <= u64::MAX,
        ensures
            final(self).wf(),
            final(self).size() == old(self).size(),
            final(self).reclaim() == (ReclaimState {
                pending: Seq::empty(),
                recycled: 0,
                stats: old(self).reclaim().stats.with_recycled(n as int),
            }),
            final(self).batch() == (BatchState {
                stats: final(self).reclaim().stats,
                ..old(self).batch()
            }),
            n == if old(self).reclaim().pending.len() > 0 {
                old(self).reclaim().pending.len()
            } else if old(self).size() <= old(ring)@.len() {
                old(self).size() as nat
            } else {
                old(ring)@.len()
            },
            final(ring)@ == if old(self).reclaim().pending.len() > 0 {
                old(ring)@
            } else {
                old(ring)@.skip(n as int)
            },
            ({
                let given = if old(self).reclaim().pending.len() > 0 {
                    old(self).reclaim().pending
                } else {
                    old(ring)@.take(n as int)
                };
                &&& final(fq)@ == old(fq)@ + given
                &&& final(fq).handed() == with_batch(old(fq).handed(), given)
            }),
            final(ring).handed() == old(ring).handed(),
    {
        if self.pending_reclaim.len() == 0 {
            let _ = self.reclaim_step(ReclaimEvent::Begin);
            let mut descs: Vec<FrameDesc> = Vec::new();
            descs.resize(self.batcher.batch_size, FrameDesc { addr: 0, len: 0 });
            let completed: usize = cq.consume(ring, descs.as_mut_slice());
            descs.truncate(completed);
            let _ = self.reclaim_step(ReclaimEvent::Consumed(descs));
            if completed == 0 {
                assert(ring@ =~= old(ring)@.skip(0));
                return 0;
            }
        } else {
            let _ = self.reclaim_step(ReclaimEvent::Begin);
        }
        let ghost given = self.pending_reclaim@;
        let n: usize = fq.produce(self.pending_reclaim.as_slice());
        let _ = self.reclaim_step(ReclaimEvent::Refilled(n));
        assert(old(self).reclaim().pending.len() == 0 ==> given =~= old(ring)@.take(n as int));
        n
    }
}

// ---------------------------------------------------------------------------
// Benchmark
// ---------------------------------------------------------------------------

/// Bytes of the packet buffer in the benchmark, which hold 32 frames.
pub const BENCH_UMEM_BYTES: usize = 65536;

/// Frames in a batch.
pub const BENCH_BATCH_SIZE: usize = 64;

/// Sends `total` frames one by one and puts each into use again at once; returns
/// how many were sent and how many were put into use again.
pub fn run_baseline(total: u64, ring: &mut InFlight, fq: &mut FillQueue) -> (counts: (u64, u64))
    requires
        old(ring)@.len() == 0,
    ensures
        counts == (total, total),
        final(ring)@.len() == 0,
        final(ring).handed() == old(ring).handed() + one_by_one(bench_frames(0, total as int)),
        final(fq)@ == old(fq)@ + bench_frames(0, total as int),
        final(fq).handed() == old(fq).handed() + one_by_one(bench_frames(0, total as int)),
{
    let (_umem, frame_descs) = Umem::new_mock(BENCH_UMEM_BYTES);
    let mut tx_q = TxQueue::new();
    let mut cq = CompQueue::new();
    let mut processed: u64 = 0;
    let mut recycled: u64 = 0;
    let mut i: u64 = 0;
    assert(ring.handed() =~= old(ring).handed() + one_by_one(bench_frames(0, 0)));
    assert(fq.handed() =~= old(fq).handed() + one_by_one(bench_frames(0, 0)));
    assert(fq@ =~= old(fq)@ + bench_frames(0, 0));
    while i < total
        invariant
            i <= total,
            processed == i,
            recycled == i,
            ring@.len() == 0,
            ring.handed() == old(ring).handed() + one_by_one(bench_frames(0, i as int)),
            fq@ == old(fq)@ + bench_frames(0, i as int),
            fq.handed() == old(fq).handed() + one_by_one(bench_frames(0, i as int)),
            frame_descs@.len() == 32,
            forall|j: int| 0 <= j < 32 ==> #[trigger] frame_descs@[j] == bench_frame(j),
        decreases total - i,
    {
        let desc: FrameDesc = frame_descs[(i % 32) as usize];
        assert(desc == bench_frame(i as int));
        let one: [FrameDesc; 1] = [desc; 1];
        assert(one@ =~= seq![desc]);
        let sent: usize = tx_q.produce(ring, &one);
        let mut back: [FrameDesc; 1] = [FrameDesc { addr: 0, len: 0 }; 1];
        let _ = cq.consume(ring, &mut back);
        let refilled: usize = fq.produce(&back);
        processed = processed + sent as u64;
        recycled = recycled + refilled as u64;
        proof {
            let before = bench_frames(0, i as int);
            let after = bench_frames(0, i + 1);
            assert(after =~= before.push(desc));
            assert(back@ =~= seq![desc]);
            assert(one_by_one(after) =~= one_by_one(before).push(seq![desc]));
            assert(ring.handed() =~= old(ring).handed() + one_by_one(after));
            assert(fq.handed() =~= old(fq).handed() + one_by_one(after));
            assert(fq@ =~= old(fq)@ + after);
        }
        i = i + 1;
    }
    (processed, recycled)
}

/// Each frame as a batch of its own.
pub open spec fn one_by_one(frames: Seq<FrameDesc>) -> Seq<Seq<FrameDesc>> {
    Seq::new(frames.len(), |i: int| seq![frames[i]])
}

/// The frame that the benchmark sends as number `i`.
pub open spec fn bench_frame(i: int) -> FrameDesc {
    FrameDesc { addr: (i % 32 * 2048) as u64, len: 2048 }
}

/// The frames that the benchmark sends, from number `from` to before `to`.
pub open spec fn bench_frames(from: int, to: int) -> Seq<FrameDesc> {
    Seq::new((to - from) as nat, |k: int| bench_frame(from + k))
}

proof fn bench_frames_bytes(from: int, to: int)
    requires
        from <= to,
    ensures
        data_bytes(bench_frames(from, to)) == 2048 * (to - from),
    decreases to - from,
{
    if from < to {
        bench_frames_bytes(from, to - 1);
        assert(bench_frames(from, to).drop_last() =~= bench_frames(from, to - 1));
    }
}

/// Sends a frame on as the one behind `processed` others, and puts the batch that it
/// fills up, if it does, into use again.
fn forward_and_reclaim(
    forwarder: &mut OptimizedForwarder,
    tx_q: &mut TxQueue,
    cq: &mut CompQueue,
    ring: &mut InFlight,
    fq: &mut FillQueue,
    desc: FrameDesc,
    processed: u64,
)
    requires
        old(forwarder).wf(),
        old(forwarder).size() == 64,
        old(forwarder).batch().flushed == 0,
        old(forwarder).batch().queued.len() == processed % 64,
        old(forwarder).reclaim().pending.len() == 0,
        old(forwarder).reclaim().recycled == 0,
        old(ring)@.len() == 0,
        processed < u64::MAX,
        old(forwarder).batch().stats.room_for_sent(old(forwarder).batch().queued.push(desc)),
        old(forwarder).batch().stats.recycled_packets + processed % 64 + 1 <= u64::MAX,
    ensures
        final(forwarder).wf(),
        final(forwarder).size() == 64,
        final(forwarder).batch().flushed == 0,
        final(forwarder).reclaim().pending.len() == 0,
        final(forwarder).reclaim().recycled == 0,
        final(ring)@.len() == 0,
        ({
            let all = old(forwarder).batch().queued.push(desc);
            if (processed + 1) % 64 == 0 {
                &&& final(forwarder).batch().queued.len() == 0
                &&& final(forwarder).batch().stats == old(forwarder).batch().stats.with_sent(
                    all,
                ).with_recycled(64)
                &&& final(ring).handed() == old(ring).handed().push(all)
                &&& final(fq)@ == old(fq)@ + all
                &&& final(fq).handed() == old(fq).handed().push(all)
            } else {
                &&& final(forwarder).batch().queued == all
                &&& final(forwarder).batch().stats == old(forwarder).batch().stats
                &&& final(ring).handed() == old(ring).handed()
                &&& final(fq)@ == old(fq)@
                &&& final(fq).handed() == old(fq).handed()
            }
        }),
{
    let ghost all = forwarder.batch().queued.push(desc);
    proof {
        forwarder.stats_agree();
    }
    let _ = forwarder.forward(tx_q, ring, desc);
    if (processed + 1) % 64 == 0 {
        assert(ring@ =~= all);
        assert(ring@.take(64) =~= all);
        let _ = forwarder.reclaim_completed(cq, fq, ring);
    }
}

/// Sends `total` frames in batches of `BENCH_BATCH_SIZE` and puts them into use again
/// batch by batch; returns what was counted.
pub fn run_optimized(
    total: u64,
    forwarder: &mut OptimizedForwarder,
    ring: &mut InFlight,
    fq: &mut FillQueue,
) -> (stats: CacheAlignedStats)
    requires
        old(forwarder).wf(),
        old(forwarder).size() == BENCH_BATCH_SIZE,
        old(forwarder).batch().queued.len() == 0,
        old(forwarder).batch().flushed == 0,
        old(forwarder).reclaim().pending.len() == 0,
        old(forwarder).reclaim().recycled == 0,
        old(ring)@.len() == 0,
        old(forwarder).batch().stats.tx_packets + total <= u64::MAX,
        old(forwarder).batch().stats.tx_bytes + total * 2048 <= u64::MAX,
        old(forwarder).batch().stats.recycled_packets + total <= u64::MAX,
    ensures
        ({
            let frames = bench_frames(0, total as int);
            let size = BENCH_BATCH_SIZE as int;
            let batches = with_batch(full_batches(frames, size), short_batch(frames, size));
            &&& stats == old(forwarder).batch().stats.with_sent(frames).with_recycled(
                total as int,
            )
            &&& final(ring).handed() == old(ring).handed() + batches
            &&& final(fq)@ == old(fq)@ + frames
            &&& final(fq).handed() == old(fq).handed() + batches
        }),
        final(ring)@.len() == 0,
        final(forwarder).wf(),
        final(forwarder).size() == old(forwarder).size(),
        final(forwarder).batch().stats == stats,
        final(forwarder).batch().queued.len() == 0,
        final(forwarder).batch().flushed == 0,
        final(forwarder).reclaim().pending.len() == 0,
        final(forwarder).reclaim().recycled == 0,
{
    let (_umem, frame_descs) = Umem::new_mock(BENCH_UMEM_BYTES);
    let mut tx_q = TxQueue::new();
    let mut cq = CompQueue::new();
    let ghost start = forwarder.batch().stats;
    let mut processed: u64 = 0;
    proof {
        forwarder.stats_agree();
        assert(bench_frames(0, 0) =~= Seq::<FrameDesc>::empty());
        assert(full_batches(bench_frames(0, 0), 64) =~= Seq::<Seq<FrameDesc>>::empty());
        assert(ring.handed() =~= old(ring).handed() + full_batches(bench_frames(0, 0), 64));
        assert(fq.handed() =~= old(fq).handed() + full_batches(bench_frames(0, 0), 64));
        assert(fq@ =~= old(fq)@ + bench_frames(0, 0));
        assert(forwarder.batch().queued =~= bench_frames(0, 0));
    }
    while processed < total
        invariant
            processed <= total,
            start.tx_packets + total <= u64::MAX,
            start.tx_bytes + total * 2048 <= u64::MAX,
            start.recycled_packets + total <= u64::MAX,
            frame_descs@.len() == 32,
            forall|i: int| 0 <= i < 32 ==> #[trigger] frame_descs@[i] == bench_frame(i),
            forwarder.wf(),
            forwarder.size() == 64,
            forwarder.batch().flushed == 0,
            forwarder.batch().queued == bench_frames(
                processed - processed % 64,
                processed as int,
            ),
            forwarder.batch().stats == (CacheAlignedStats {
                tx_packets: (start.tx_packets + (processed - processed % 64)) as u64,
                tx_bytes: (start.tx_bytes + (processed - processed % 64) * 2048) as u64,
                recycled_packets: (start.recycled_packets + (processed - processed % 64)) as u64,
            }),
            forwarder.reclaim().pending.len() == 0,
            forwarder.reclaim().recycled == 0,
            ring@.len() == 0,
            ring.handed() == old(ring).handed() + full_batches(
                bench_frames(0, processed as int),
                64,
            ),
            fq.handed() == old(fq).handed() + full_batches(
                bench_frames(0, processed as int),
                64,
            ),
            fq@ == old(fq)@ + bench_frames(0, processed - processed % 64),
        decreases total - processed,
    {
        let desc: FrameDesc = frame_descs[(processed % 32) as usize];
        let ghost from = processed - processed % 64;
        let ghost before = bench_frames(0, processed as int);
        let ghost after = bench_frames(0, processed + 1);
        let ghost last = bench_frames(from, processed + 1);
        proof {
            assert(desc == bench_frame(processed as int));
            assert(forwarder.batch().queued.push(desc) =~= last);
            bench_frames_bytes(from, processed + 1);
            assert(after =~= before.push(desc));
            full_batches_grow(before, desc, 64);
        }
        forward_and_reclaim(forwarder, &mut tx_q, &mut cq, ring, fq, desc, processed);
        proof {
            if (processed + 1) % 64 == 0 {
                assert(after.skip(from) =~= last);
                assert(ring.handed() =~= old(ring).handed() + full_batches(after, 64));
                assert(fq.handed() =~= old(fq).handed() + full_batches(after, 64));
                assert(bench_frames(0, from) + last =~= after);
                assert(fq@ =~= old(fq)@ + after);
                assert(forwarder.batch().queued =~= bench_frames(processed + 1, processed + 1));
            }
        }
        processed = processed + 1;
    }
    let ghost frames = bench_frames(0, total as int);
    let ghost rest = forwarder.batch().queued;
    proof {
        bench_frames_bytes(total - total % 64, total as int);
        bench_frames_bytes(0, total as int);
        assert(rest =~= short_batch(frames, 64));
    }
    let _ = forwarder.flush(&mut tx_q, ring);
    proof {
        forwarder.stats_agree();
    }
    assert(ring@ =~= rest);
    assert(ring@.take(rest.len() as int) =~= rest);
    let _ = forwarder.reclaim_completed(&mut cq, fq, ring);
    proof {
        let batches = with_batch(full_batches(frames, 64), rest);
        assert(ring.handed() =~= old(ring).handed() + batches);
        assert(fq.handed() =~= old(fq).handed() + batches);
        assert(bench_frames(0, total - total % 64) + rest =~= frames);
        assert(fq@ =~= old(fq)@ + frames);
    }
    *forwarder.stats()
}

// ---------------------------------------------------------------------------
// Laws
// ---------------------------------------------------------------------------

/// No step of a flush loses a frame, doubles one or changes their order: what is
/// left is the end of what there was, and the rest was counted as sent.
pub proof fn flush_keeps_frames(s: BatchState, event: FlushEvent)
    requires
        event matches FlushEvent::Accepted(n) ==> n <= s.queued.len() && s.stats.room_for_sent(
            s.queued.take(n as int),
        ),
    ensures
        ({
            let next = flush_step(s, event).0;
            &&& next.queued.len() <= s.queued.len()
            &&& next.queued == s.queued.skip(s.queued.len() - next.queued.len())
            &&& next.stats.tx_packets + next.queued.len() == s.stats.tx_packets + s.queued.len()
            &&& next.stats.recycled_packets == s.stats.recycled_packets
        }),
{
    let next = flush_step(s, event).0;
    assert(next.queued =~= s.queued.skip(s.queued.len() - next.queued.len()));
}

/// A flush is over only where nothing is left or the ring could not be woken up,
/// and then a new one can begin.
pub proof fn flush_ends_clean(s: BatchState, event: FlushEvent)
    ensures
        flush_step(s, event).1 is Done ==> flush_step(s, event).0.queued.len() == 0,
        flush_step(s, event).1 is Done || flush_step(s, event).1 is Failed ==> flush_step(
            s,
            event,
        ).0.flushed == 0,
{
}

/// No step of the return loses a frame or doubles one: a frame is pending until
/// it is counted as in use again.
pub proof fn reclaim_keeps_frames(s: ReclaimState, event: ReclaimEvent, limit: usize)
    requires
        event matches ReclaimEvent::Refilled(n) ==> n <= s.pending.len()
            && s.stats.recycled_packets + n <= u64::MAX,
    ensures
        ({
            let next = reclaim_step(s, event, limit).0;
            let back = match event {
                ReclaimEvent::Consumed(descs) => descs@.len() as int,
                _ => 0int,
            };
            &&& next.stats.recycled_packets + next.pending.len() == s.stats.recycled_packets
                + s.pending.len() + back
            &&& next.stats.tx_packets == s.stats.tx_packets
        }),
{
}

/// What a run of the return did.
#[verifier::ext_equal]
pub struct ReclaimRun {
    /// Where the return stands at its end.
    pub state: ReclaimState,
    /// What to do next; nothing where the run is empty.
    pub action: Option<ReclaimAction>,
    /// Frames that were taken from the completion ring, in their order.
    pub taken: Seq<FrameDesc>,
    /// Frames that the fill ring took over, in their order.
    pub given: Seq<FrameDesc>,
}

/// The run of the return through some events.
pub open spec fn reclaim_run(s: ReclaimState, events: Seq<ReclaimEvent>, limit: usize) -> ReclaimRun
    decreases events.len(),
{
    if events.len() == 0 {
        ReclaimRun { state: s, action: None, taken: Seq::empty(), given: Seq::empty() }
    } else {
        let before = reclaim_run(s, events.drop_last(), limit);
        let (state, action) = reclaim_step(before.state, events.last(), limit);
        ReclaimRun {
            state,
            action: Some(action),
            taken: match events.last() {
                ReclaimEvent::Consumed(descs) => before.taken + descs@,
                _ => before.taken,
            },
            given: match events.last() {
                ReclaimEvent::Refilled(n) => before.given + before.state.pending.take(n as int),
                _ => before.given,
            },
        }
    }
}

/// At each event of the run the fill ring takes no more than it is offered, and
/// the counter has room for it.
pub open spec fn reclaim_run_fits(s: ReclaimState, events: Seq<ReclaimEvent>, limit: usize) -> bool
    decreases events.len(),
{
    events.len() > 0 ==> {
        let before = reclaim_run(s, events.drop_last(), limit).state;
        &&& reclaim_run_fits(s, events.drop_last(), limit)
        &&& events.last() matches ReclaimEvent::Refilled(n) ==> n <= before.pending.len()
            && before.stats.recycled_packets + n <= u64::MAX
    }
}

/// Over any number of returns, also those that failed because the ring could not be
/// woken up, the fill ring takes over the frames from the completion ring in their
/// order, each once: what it did not take yet is pending. Each is counted.
pub proof fn frames_return_in_order(s: ReclaimState, events: Seq<ReclaimEvent>, limit: usize)
    requires
        reclaim_run_fits(s, events, limit),
    ensures
        ({
            let run = reclaim_run(s, events, limit);
            &&& run.given + run.state.pending == s.pending + run.taken
            &&& run.state.stats.recycled_packets == s.stats.recycled_packets + run.given.len()
        }),
    decreases events.len(),
{
    let run = reclaim_run(s, events, limit);
    if events.len() == 0 {
        assert(run.given + run.state.pending =~= s.pending + run.taken);
    } else {
        frames_return_in_order(s, events.drop_last(), limit);
        let before = reclaim_run(s, events.drop_last(), limit);
        let held = before.state.pending;
        match events.last() {
            ReclaimEvent::Consumed(descs) => {
                assert(before.given + (held + descs@) =~= (before.given + held) + descs@);
                assert(s.pending + (before.taken + descs@) =~= (s.pending + before.taken)
                    + descs@);
            },
            ReclaimEvent::Refilled(n) => {
                assert(held.skip(0) =~= held);
                assert((before.given + held.take(n as int)) + held.skip(n as int) =~= before.given
                    + held);
            },
            _ => {},
        }
    }
}

/// The run is a single return: it begins with its first event, and goes on no
/// further than to its end.
pub open spec fn single_return(s: ReclaimState, events: Seq<ReclaimEvent>, limit: usize) -> bool
    decreases events.len(),
{
    if events.len() <= 1 {
        events.len() == 1 && events[0] is Begin
    } else {
        let before = reclaim_run(s, events.drop_last(), limit);
        &&& single_return(s, events.drop_last(), limit)
        &&& events.last() !is Begin
        &&& !(before.action->0 is Done)
        &&& !(before.action->0 is Failed)
    }
}

/// A return that comes to its end says how many frames the fill ring took over in
/// it, and leaves none pending. One that fails keeps those that the ring did not
/// take.
pub proof fn return_reports_its_frames(s: ReclaimState, events: Seq<ReclaimEvent>, limit: usize)
    requires
        single_return(s, events, limit),
        reclaim_run_fits(s, events, limit),
        reclaim_run(s, events, limit).given.len() <= usize::MAX,
    ensures
        ({
            let run = reclaim_run(s, events, limit);
            match run.action->0 {
                ReclaimAction::Done(r) => {
                    &&& r == run.given.len()
                    &&& run.state.pending.len() == 0
                    &&& run.given == s.pending + run.taken
                },
                ReclaimAction::Failed => run.given + run.state.pending == s.pending + run.taken,
                _ => run.state.recycled == run.given.len() && (run.given.len() > 0
                    ==> run.state.pending.len() > 0),
            }
        }),
    decreases events.len(),
{
    let run = reclaim_run(s, events, limit);
    frames_return_in_order(s, events, limit);
    if events.len() > 1 {
        return_reports_its_frames(s, events.drop_last(), limit);
    } else {
        assert(events.drop_last() =~= Seq::<ReclaimEvent>::empty());
    }
    if run.state.pending.len() == 0 {
        assert(run.given + run.state.pending =~= run.given);
    }
}

/// A return that begins while frames are pending offers those to the fill ring, and
/// takes no new ones.
pub proof fn pending_frames_go_first(s: ReclaimState, limit: usize)
    ensures
        reclaim_step(s, ReclaimEvent::Begin, limit).1 == if s.pending.len() > 0 {
            ReclaimAction::Refill
        } else {
            ReclaimAction::Consume(limit)
        },
        reclaim_step(s, ReclaimEvent::Woken(false), limit).0.pending == s.pending,
        reclaim_step(s, ReclaimEvent::Begin, limit).0.pending == s.pending,
{
}

/// The batches that were handed over, one behind the other.
pub open spec fn unbatched(batches: Seq<Seq<FrameDesc>>) -> Seq<FrameDesc>
    decreases batches.len(),
{
    if batches.len() == 0 {
        Seq::empty()
    } else {
        unbatched(batches.drop_last()) + batches.last()
    }
}

proof fn full_batches_in_order(frames: Seq<FrameDesc>, size: int, k: int)
    requires
        size > 0,
        0 <= k <= full_batches(frames, size).len(),
    ensures
        0 <= k * size <= frames.len(),
        unbatched(full_batches(frames, size).take(k)) == frames.take(k * size),
    decreases k,
{
    let all = full_batches(frames, size);
    let n = frames.len() as int;
    assert(k * size <= n && 0 <= k * size) by (nonlinear_arith)
        requires
            0 <= k <= n / size,
            size > 0,
            n >= 0,
    ;
    if k == 0 {
        assert(all.take(0) =~= Seq::<Seq<FrameDesc>>::empty());
        assert(frames.take(0) =~= Seq::<FrameDesc>::empty());
    } else {
        full_batches_in_order(frames, size, k - 1);
        assert(all.take(k).drop_last() =~= all.take(k - 1));
        assert(all.take(k).last() == frames.subrange((k - 1) * size, k * size));
        assert((k - 1) * size <= k * size) by (nonlinear_arith)
            requires
                size > 0,
        ;
        assert(frames.take((k - 1) * size) + frames.subrange((k - 1) * size, k * size)
            =~= frames.take(k * size));
    }
}

/// The full batches and what is left behind them are the frames, in their order: every
/// full batch has as many as asked for, and what is left has fewer.
pub proof fn batches_make_up_the_frames(frames: Seq<FrameDesc>, size: int)
    requires
        size > 0,
    ensures
        unbatched(with_batch(full_batches(frames, size), short_batch(frames, size))) == frames,
        short_batch(frames, size).len() < size,
        forall|k: int|
            0 <= k < full_batches(frames, size).len() ==> (#[trigger] full_batches(
                frames,
                size,
            )[k]).len() == size,
{
    let all = full_batches(frames, size);
    let short = short_batch(frames, size);
    let n = frames.len() as int;
    let k = all.len() as int;
    full_batches_in_order(frames, size, k);
    assert(all.take(k) =~= all);
    assert(n == k * size + n % size && 0 <= n % size < size) by (nonlinear_arith)
        requires
            k == n / size,
            size > 0,
            n >= 0,
    ;
    assert(frames.take(k * size) + short =~= frames);
    if short.len() == 0 {
        assert(frames.take(k * size) =~= frames);
    } else {
        assert(all.push(short).drop_last() =~= all);
    }
    assert forall|i: int| 0 <= i < all.len() implies (#[trigger] all[i]).len() == size by {
        assert(0 <= i * size && (i + 1) * size <= n && (i + 1) * size - i * size == size)
            by (nonlinear_arith)
            requires
                0 <= i < n / size,
                size > 0,
                n >= 0,
        ;
    }
}

/// Frames one by one are the frames, in batches of one.
pub proof fn single_frames_make_up_the_frames(frames: Seq<FrameDesc>)
    ensures
        unbatched(one_by_one(frames)) == frames,
        one_by_one(frames).len() == frames.len(),
        forall|k: int| 0 <= k < frames.len() ==> (#[trigger] one_by_one(frames)[k]).len() == 1,
    decreases frames.len(),
{
    if frames.len() > 0 {
        single_frames_make_up_the_frames(frames.drop_last());
        assert(one_by_one(frames).drop_last() =~= one_by_one(frames.drop_last()));
        assert(one_by_one(frames).last() =~= seq![frames.last()]);
        assert(unbatched(one_by_one(frames)) =~= frames);
    }
}

/// Every frame that the benchmark sends is a whole frame of its buffer, and the frames
/// of the buffer take turns.
pub proof fn bench_frames_take_turns(i: int)
    requires
        0 <= i,
    ensures
        bench_frame(i).addr % 2048 == 0,
        bench_frame(i).addr + bench_frame(i).len <= BENCH_UMEM_BYTES,
        bench_frame(i).len == 2048,
        bench_frame(i + 32) == bench_frame(i),
        forall|j: int| i < j < i + 32 ==> #[trigger] bench_frame(j) != bench_frame(i),
{
    assert forall|j: int| i < j < i + 32 implies #[trigger] bench_frame(j) != bench_frame(i) by {
        assert(j % 32 != i % 32);
    }
}

/// A ring that takes frames over counts them with their bytes, and they count toward what
/// the flush reports at its end.
pub proof fn flush_counts_what_is_taken(s: BatchState, n: usize)
    requires
        0 < n <= s.queued.len(),
        s.stats.room_for_sent(s.queued.take(n as int)),
    ensures
        ({
            let (next, action) = flush_step(s, FlushEvent::Accepted(n));
            &&& next.stats.tx_packets == s.stats.tx_packets + n
            &&& next.stats.tx_bytes == s.stats.tx_bytes + data_bytes(s.queued.take(n as int))
            &&& next.flushed == s.flushed + n
            &&& action == if n == s.queued.len() {
                FlushAction::CheckWakeup
            } else {
                FlushAction::Submit
            }
        }),
{
    data_bytes_join(s.queued.take(n as int), Seq::empty());
}

/// A ring that takes nothing, or has taken everything, is woken up where it asks for it.
/// Then what is left is offered again; where nothing is left the flush is over and reports
/// how many frames went out in it. A ring that cannot be woken up ends the flush, and the
/// frames that it did not take are kept.
pub proof fn flush_wakes_the_ring(s: BatchState)
    ensures
        flush_step(s, FlushEvent::Accepted(0)) == (s, FlushAction::CheckWakeup),
        flush_step(s, FlushEvent::WakeupNeeded(true)) == (s, FlushAction::Wake),
        flush_step(s, FlushEvent::WakeupNeeded(false)) == flush_step(s, FlushEvent::Woken(true)),
        s.queued.len() > 0 ==> flush_step(s, FlushEvent::Woken(true)) == (s, FlushAction::Submit),
        s.queued.len() == 0 ==> flush_step(s, FlushEvent::Woken(true)).1 == FlushAction::Done(
            s.flushed as usize,
        ),
        flush_step(s, FlushEvent::Woken(false)).1 is Failed,
        flush_step(s, FlushEvent::Woken(false)).0.queued == s.queued,
        s.queued.len() == 0 ==> flush_step(s, FlushEvent::Begin).1 == FlushAction::Done(0),
        s.queued.len() > 0 ==> flush_step(s, FlushEvent::Begin).1 == FlushAction::Submit,
        flush_step(s, FlushEvent::Begin).0.queued == s.queued,
        flush_step(s, FlushEvent::Begin).0.flushed == 0,
{
}

/// A fill ring that takes nothing is woken up where it asks for it, and then offered the
/// same frames again.
pub proof fn return_wakes_the_ring(s: ReclaimState, limit: usize)
    ensures
        reclaim_step(s, ReclaimEvent::Refilled(0), limit) == (s, ReclaimAction::CheckWakeup),
        reclaim_step(s, ReclaimEvent::WakeupNeeded(true), limit) == (s, ReclaimAction::Wake),
        reclaim_step(s, ReclaimEvent::WakeupNeeded(false), limit) == (s, ReclaimAction::Refill),
        reclaim_step(s, ReclaimEvent::Woken(true), limit) == (s, ReclaimAction::Refill),
        reclaim_step(s, ReclaimEvent::Woken(false), limit).1 is Failed,
{
}

} // verus!
