//! Workers that share nothing: each has a packet buffer and rings of its own, and
//! sends every packet it receives back to where it came from.
use crate::common::{macs_swapped, swap_macs};
use crate::tx;
use crate::tx::{
    CompQueue, FillQueue, FrameDesc, InFlight, OptimizedForwarder, RxQueue, TxQueue, Umem,
    UmemDataMut,
};
use vstd::prelude::*;

verus! {

/// What a worker has to itself.
pub struct ShardResources {
    /// The packet buffer.
    pub umem: Umem,
    /// The receive ring.
    pub rx_q: RxQueue,
    /// The transmit ring.
    pub tx_q: TxQueue,
    /// The completion ring.
    pub cq: CompQueue,
    /// The fill ring.
    pub fq: FillQueue,
}

/// Frames that a worker sends at a time.
pub const SHARD_BATCH_SIZE: usize = 64;

/// Bytes of the packet buffer of a worker over rings in memory.
pub const MOCK_UMEM_BYTES: usize = 65536;

impl ShardResources {
    /// The resources of a worker over rings in memory.
    pub fn new_mock() -> (resources: Self)
        ensures
            resources.umem.bytes() == Seq::new(MOCK_UMEM_BYTES as nat, |i: int| 0u8),
            resources.fq@ == Seq::<FrameDesc>::empty(),
            resources.fq.handed() == Seq::<Seq<FrameDesc>>::empty(),
    {
        let (umem, _descs) = Umem::new_mock(MOCK_UMEM_BYTES);
        ShardResources {
            umem,
            rx_q: RxQueue::new(),
            tx_q: TxQueue::new(),
            cq: CompQueue::new(),
            fq: FillQueue::new(),
        }
    }
}

/// The packet buffer after the Ethernet addresses of a packet in it were swapped.
pub open spec fn frame_swapped(bytes: Seq<u8>, desc: FrameDesc) -> Seq<u8> {
    bytes.take(desc.addr as int) + macs_swapped(
        bytes.subrange(desc.addr as int, desc.addr + desc.len),
    ) + bytes.skip(desc.addr + desc.len)
}

/// The packet buffer after the Ethernet addresses of some packets in it were
/// swapped, one after another.
pub open spec fn frames_swapped(bytes: Seq<u8>, descs: Seq<FrameDesc>) -> Seq<u8>
    decreases descs.len(),
{
    if descs.len() == 0 {
        bytes
    } else {
        frame_swapped(frames_swapped(bytes, descs.drop_last()), descs.last())
    }
}

/// Every packet lies in a buffer of this many bytes.
pub open spec fn all_held(size: int, descs: Seq<FrameDesc>) -> bool {
    forall|i: int| 0 <= i < descs.len() ==> #[trigger] descs[i].addr + descs[i].len <= size
}

/// Swapping addresses keeps the size of the buffer.
pub proof fn frames_swapped_len(bytes: Seq<u8>, descs: Seq<FrameDesc>)
    requires
        all_held(bytes.len() as int, descs),
    ensures
        frames_swapped(bytes, descs).len() == bytes.len(),
    decreases descs.len(),
{
    if descs.len() > 0 {
        assert(all_held(bytes.len() as int, descs.drop_last())) by {
            assert forall|i: int| 0 <= i < descs.drop_last().len() implies #[trigger] descs.drop_last()[i].addr
                + descs.drop_last()[i].len <= bytes.len() by {
                assert(descs[i].addr + descs[i].len <= bytes.len());
            }
        }
        frames_swapped_len(bytes, descs.drop_last());
        assert(descs.last() == descs[descs.len() - 1]);
    }
}

/// Swaps the Ethernet addresses of a packet in the buffer.
fn swap_frame(umem: &mut Umem, desc: &FrameDesc)
    requires
        old(umem).holds(*desc),
    ensures
        final(umem).bytes() == frame_swapped(old(umem).bytes(), *desc),
{
    let data: UmemDataMut<'_> = umem.data_mut(desc);
    swap_macs(data.slice);
}

/// Number of the frames `all` that went out once they were all collected: whole
/// batches, as far as they go.
pub open spec fn whole_batches(all: Seq<FrameDesc>, size: int) -> int {
    all.len() - all.len() as int % size
}

/// Swaps the Ethernet addresses of the packets that were received, and sends them
/// on in batches.
pub fn forward_received(
    resources: &mut ShardResources,
    forwarder: &mut OptimizedForwarder,
    ring: &mut InFlight,
    received: &[FrameDesc],
)
    requires
        old(forwarder).wf(),
        old(forwarder).batch().flushed == 0,
        old(forwarder).batch().queued.len() < old(forwarder).size(),
        old(forwarder).batch().stats.room_for_sent(old(forwarder).batch().queued + received@),
        all_held(old(resources).umem.bytes().len() as int, received@),
    ensures
        final(forwarder).wf(),
        final(forwarder).size() == old(forwarder).size(),
        final(forwarder).batch().flushed == 0,
        final(resources).umem.bytes() == frames_swapped(
            old(resources).umem.bytes(),
            received@,
        ),
        ({
            let all = old(forwarder).batch().queued + received@;
            let out = whole_batches(all, old(forwarder).size() as int);
            &&& final(ring)@ == old(ring)@ + all.take(out)
            &&& final(ring).handed() == old(ring).handed() + tx::full_batches(
                all,
                old(forwarder).size() as int,
            )
            &&& final(forwarder).batch().queued == all.skip(out)
            &&& final(forwarder).batch().stats == old(forwarder).batch().stats.with_sent(
                all.take(out),
            )
        }),
        final(forwarder).reclaim() == (tx::ReclaimState {
            stats: final(forwarder).batch().stats,
            ..old(forwarder).reclaim()
        }),
        final(resources).fq == old(resources).fq,
{
    let ghost bytes = resources.umem.bytes();
    let ghost start = forwarder.batch();
    let ghost size = forwarder.size() as int;
    let ghost all = start.queued + received@;
    let ghost had = start.queued.len() as int;
    let mut i: usize = 0;
    proof {
        vstd::arithmetic::div_mod::lemma_small_mod(had as nat, size as nat);
        assert(all.take(had) =~= start.queued);
        assert(received@.take(0) =~= Seq::<FrameDesc>::empty());
        assert(ring@ =~= old(ring)@ + all.take(0));
        assert(start.queued =~= all.subrange(0, had));
        vstd::arithmetic::div_mod::lemma_basic_div(had, size);
        assert(tx::full_batches(all.take(had), size) =~= Seq::<Seq<FrameDesc>>::empty());
        assert(ring.handed() =~= old(ring).handed() + tx::full_batches(all.take(had), size));
        assert(all.take(0) =~= Seq::<FrameDesc>::empty());
        assert(start.stats == start.stats.with_sent(all.take(0)));
        forwarder.stats_agree();
    }
    while i < received.len()
        invariant
            i <= received@.len(),
            had == start.queued.len(),
            all == start.queued + received@,
            size == old(forwarder).size(),
            size > 0,
            had < size,
            forwarder.wf(),
            forwarder.size() == size,
            forwarder.batch().flushed == 0,
            start.stats.room_for_sent(all),
            start == old(forwarder).batch(),
            bytes == old(resources).umem.bytes(),
            resources.fq == old(resources).fq,
            all_held(bytes.len() as int, received@),
            resources.umem.bytes() == frames_swapped(bytes, received@.take(i as int)),
            ({
                let out = (had + i) - (had + i) % size;
                &&& 0 <= out <= had + i
                &&& ring@ == old(ring)@ + all.take(out)
                &&& ring.handed() == old(ring).handed() + tx::full_batches(
                    all.take(had + i),
                    size,
                )
                &&& forwarder.batch().queued == all.subrange(out, had + i)
                &&& forwarder.batch().stats == start.stats.with_sent(all.take(out))
            }),
            forwarder.reclaim() == (tx::ReclaimState {
                stats: forwarder.batch().stats,
                ..old(forwarder).reclaim()
            }),
        decreases received@.len() - i,
    {
        let desc: FrameDesc = received[i];
        let ghost at = had + i;
        let ghost out = at - at % size;
        proof {
            let seen = received@.take(i as int);
            assert(all_held(bytes.len() as int, seen)) by {
                assert forall|j: int| 0 <= j < seen.len() implies #[trigger] seen[j].addr
                    + seen[j].len <= bytes.len() by {
                    assert(received@[j].addr + received@[j].len <= bytes.len());
                }
            }
            frames_swapped_len(bytes, seen);
            assert(received@[i as int].addr + received@[i as int].len <= bytes.len());
            assert(received@.take(i + 1).drop_last() =~= seen);
            assert(all[at] == desc);
            assert(all.subrange(out, at).push(desc) =~= all.subrange(out, at + 1));
            assert(all.take(out) + all.subrange(out, at + 1) =~= all.take(at + 1));
            tx::data_bytes_join(all.take(out), all.subrange(out, at + 1));
            tx::data_bytes_join(all.take(at + 1), all.skip(at + 1));
            assert(all.take(at + 1) + all.skip(at + 1) =~= all);
            tx::next_division(at, size);
            assert(all.take(at).push(desc) =~= all.take(at + 1));
            tx::full_batches_grow(all.take(at), desc, size);
        }
        swap_frame(&mut resources.umem, &desc);
        let _ = forwarder.forward(&mut resources.tx_q, ring, desc);
        proof {
            let full = at % size + 1 == size;
            if full {
                assert(ring@ =~= old(ring)@ + all.take(at + 1));
                assert(all.subrange(at + 1, at + 1) =~= Seq::<FrameDesc>::empty());
                assert(all.take(at + 1).skip(at + 1 - size) =~= all.subrange(out, at + 1));
                assert(ring.handed() =~= old(ring).handed() + tx::full_batches(
                    all.take(at + 1),
                    size,
                ));
            }
        }
        i = i + 1;
    }
    proof {
        assert(received@.take(i as int) =~= received@);
        let out = whole_batches(all, size);
        assert(all.subrange(out, all.len() as int) =~= all.skip(out));
        assert(all.take(had + i) =~= all);
    }
}

/// One turn of a worker over rings in memory: the packets that were received are
/// sent on, frames that came back are put into use again, and what is left of the
/// batch goes out. Returns how many frames were put into use again.
pub fn run_shard_turn(
    resources: &mut ShardResources,
    forwarder: &mut OptimizedForwarder,
    ring: &mut InFlight,
    received: &[FrameDesc],
) -> (recycled: usize)
    requires
        old(forwarder).wf(),
        old(forwarder).size() > 0,
        old(forwarder).batch().flushed == 0,
        old(forwarder).batch().queued.len() == 0,
        old(forwarder).reclaim().recycled == 0,
        old(forwarder).reclaim().pending.len() == 0,
        old(forwarder).batch().stats.room_for_sent(received@),
        old(forwarder).reclaim().stats.recycled_packets + old(ring)@.len() + received@.len()
            <= u64::MAX,
        all_held(old(resources).umem.bytes().len() as int, received@),
    ensures
        ({
            let size = old(forwarder).size() as int;
            let out = whole_batches(received@, size);
            let flying = old(ring)@ + received@.take(out);
            &&& recycled == if size <= flying.len() {
                size
            } else {
                flying.len() as int
            }
            &&& final(ring)@ == flying.skip(recycled as int) + received@.skip(out)
            &&& final(ring).handed() == old(ring).handed() + tx::with_batch(
                tx::full_batches(received@, size),
                received@.skip(out),
            )
            &&& final(resources).fq@ == old(resources).fq@ + flying.take(recycled as int)
            &&& final(resources).fq.handed() == tx::with_batch(
                old(resources).fq.handed(),
                flying.take(recycled as int),
            )
        }),
        final(resources).umem.bytes() == frames_swapped(
            old(resources).umem.bytes(),
            received@,
        ),
        final(forwarder).wf(),
        final(forwarder).size() == old(forwarder).size(),
        final(forwarder).batch().flushed == 0,
        final(forwarder).batch().queued.len() == 0,
        final(forwarder).reclaim().recycled == 0,
        final(forwarder).reclaim().pending.len() == 0,
        final(forwarder).batch().stats == old(forwarder).batch().stats.with_sent(
            received@,
        ).with_recycled(recycled as int),
{
    let ghost start = forwarder.batch();
    let ghost size = forwarder.size() as int;
    let ghost out = whole_batches(received@, size);
    proof {
        assert(start.queued + received@ =~= received@);
        vstd::arithmetic::div_mod::lemma_mod_bound(received@.len() as int, size);
        vstd::arithmetic::div_mod::lemma_mod_decreases(received@.len(), size as nat);
        tx::data_bytes_join(received@.take(out), received@.skip(out));
        assert(received@.take(out) + received@.skip(out) =~= received@);
    }
    forward_received(resources, forwarder, ring, received);
    let ghost flying = ring@;
    let ghost kept = forwarder.batch().queued;
    assert(flying == old(ring)@ + received@.take(out));
    assert(kept == received@.skip(out));
    proof {
        forwarder.stats_agree();
        old(forwarder).stats_agree();
    }
    let recycled: usize = forwarder.reclaim_completed(&mut resources.cq, &mut resources.fq, ring);
    assert(ring@ == flying.skip(recycled as int));
    assert(forwarder.batch().queued == kept);
    let _ = forwarder.flush(&mut resources.tx_q, ring);
    assert(ring.handed() =~= old(ring).handed() + tx::with_batch(
        tx::full_batches(received@, size),
        kept,
    ));
    recycled
}

// ---------------------------------------------------------------------------
// Laws
// ---------------------------------------------------------------------------

/// Two packets share no byte.
pub open spec fn apart(a: FrameDesc, b: FrameDesc) -> bool {
    a.addr + a.len <= b.addr || b.addr + b.len <= a.addr
}

/// Swapping the addresses of a packet changes that packet and no other.
proof fn swapped_frame(bytes: Seq<u8>, desc: FrameDesc, other: FrameDesc)
    requires
        desc.addr + desc.len <= bytes.len(),
        other.addr + other.len <= bytes.len(),
    ensures
        frame_swapped(bytes, desc).len() == bytes.len(),
        frame_swapped(bytes, desc).subrange(desc.addr as int, desc.addr + desc.len)
            == macs_swapped(bytes.subrange(desc.addr as int, desc.addr + desc.len)),
        apart(desc, other) ==> frame_swapped(bytes, desc).subrange(
            other.addr as int,
            other.addr + other.len,
        ) == bytes.subrange(other.addr as int, other.addr + other.len),
{
    let new = frame_swapped(bytes, desc);
    let packet = bytes.subrange(desc.addr as int, desc.addr + desc.len);
    assert(macs_swapped(packet).len() == packet.len());
    assert(new.subrange(desc.addr as int, desc.addr + desc.len) =~= macs_swapped(packet));
    if apart(desc, other) {
        assert(new.subrange(other.addr as int, other.addr + other.len) =~= bytes.subrange(
            other.addr as int,
            other.addr + other.len,
        ));
    }
}

/// Every packet that was received goes back to where it came from: where no two share a
/// byte, each ends up with its own addresses swapped, and a packet that was not received
/// stays as it is.
pub proof fn received_packets_are_swapped(
    bytes: Seq<u8>,
    descs: Seq<FrameDesc>,
    other: FrameDesc,
)
    requires
        all_held(bytes.len() as int, descs),
        forall|i: int, j: int|
            0 <= i < j < descs.len() ==> apart(#[trigger] descs[i], #[trigger] descs[j]),
        other.addr + other.len <= bytes.len(),
        forall|i: int| 0 <= i < descs.len() ==> apart(#[trigger] descs[i], other),
    ensures
        forall|i: int|
            0 <= i < descs.len() ==> frames_swapped(bytes, descs).subrange(
                (#[trigger] descs[i]).addr as int,
                descs[i].addr + descs[i].len,
            ) == macs_swapped(
                bytes.subrange(descs[i].addr as int, descs[i].addr + descs[i].len),
            ),
        frames_swapped(bytes, descs).subrange(other.addr as int, other.addr + other.len)
            == bytes.subrange(other.addr as int, other.addr + other.len),
    decreases descs.len(),
{
    if descs.len() > 0 {
        let front = descs.drop_last();
        let last = descs.last();
        assert(last == descs[descs.len() - 1]);
        assert(forall|i: int| 0 <= i < front.len() ==> front[i] == descs[i]);
        assert(all_held(bytes.len() as int, front)) by {
            assert forall|i: int| 0 <= i < front.len() implies #[trigger] front[i].addr
                + front[i].len <= bytes.len() by {
                assert(descs[i].addr + descs[i].len <= bytes.len());
            }
        }
        assert(last.addr + last.len <= bytes.len());
        received_packets_are_swapped(bytes, front, other);
        received_packets_are_swapped(bytes, front, last);
        frames_swapped_len(bytes, front);
        let mid = frames_swapped(bytes, front);
        swapped_frame(mid, last, other);
        assert forall|i: int| 0 <= i < descs.len() implies frames_swapped(bytes, descs).subrange(
            (#[trigger] descs[i]).addr as int,
            descs[i].addr + descs[i].len,
        ) == macs_swapped(
            bytes.subrange(descs[i].addr as int, descs[i].addr + descs[i].len),
        ) by {
            if i < front.len() {
                assert(front[i] == descs[i]);
                assert(apart(descs[i], descs[descs.len() - 1]));
                assert(descs[i].addr + descs[i].len <= bytes.len());
                swapped_frame(mid, last, descs[i]);
            }
        }
    }
}

} // verus!
