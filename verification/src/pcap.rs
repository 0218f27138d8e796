//! Capture files.
use crate::bench;
use crate::bench::{packet_of, roll_percent, TestProfile};
use crate::packet_gen;
use vstd::prelude::*;

verus! {

/// The order of the bytes of a number in a file. A reader finds out which by the
/// first number in it.
#[derive(Clone, Copy, Debug, PartialEq, Eq, Structural)]
pub enum ByteOrder {
    Little,
    Big,
}

/// The bytes of a 16-bit number.
pub open spec fn ordered16(v: u16, order: ByteOrder) -> Seq<u8> {
    let hi = (v / 0x100) as u8;
    let lo = (v % 0x100) as u8;
    match order {
        ByteOrder::Little => seq![lo, hi],
        ByteOrder::Big => seq![hi, lo],
    }
}

/// The bytes of a 32-bit number.
pub open spec fn ordered32(v: u32, order: ByteOrder) -> Seq<u8> {
    let b3 = (v / 0x100_0000) as u8;
    let b2 = (v / 0x1_0000 % 0x100) as u8;
    let b1 = (v / 0x100 % 0x100) as u8;
    let b0 = (v % 0x100) as u8;
    match order {
        ByteOrder::Little => seq![b0, b1, b2, b3],
        ByteOrder::Big => seq![b3, b2, b1, b0],
    }
}

/// The number that four bytes stand for.
pub open spec fn number32(b: Seq<u8>, order: ByteOrder) -> int {
    match order {
        ByteOrder::Little => b[0] + b[1] * 0x100 + b[2] * 0x1_0000 + b[3] * 0x100_0000,
        ByteOrder::Big => b[3] + b[2] * 0x100 + b[1] * 0x1_0000 + b[0] * 0x100_0000,
    }
}

/// The header of a file: the number that shows the byte order, version 2.4, no
/// time zone, no accuracy, up to 65535 bytes of each packet, Ethernet.
pub open spec fn file_header(order: ByteOrder) -> Seq<u8> {
    ordered32(0xa1b2c3d4, order) + ordered16(2, order) + ordered16(4, order) + ordered32(0, order)
        + ordered32(0, order) + ordered32(65535, order) + ordered32(1, order)
}

/// A packet in a file: its time, its length twice, and its bytes. The numbers are
/// cut to 32 bits.
pub open spec fn record(secs: u64, micros: u32, packet: Seq<u8>, order: ByteOrder) -> Seq<u8> {
    ordered32(secs as u32, order) + ordered32(micros, order) + ordered32(
        packet.len() as u32,
        order,
    ) + ordered32(packet.len() as u32, order) + packet
}

/// Collects the bytes of a file.
#[derive(Debug)]
pub struct PcapWriter {
    order: ByteOrder,
    bytes: Vec<u8>,
}

impl PcapWriter {
    /// The bytes that were written and not taken yet.
    pub closed spec fn written(self) -> Seq<u8> {
        self.bytes@
    }

    /// The byte order of the file.
    pub closed spec fn order(self) -> ByteOrder {
        self.order
    }

    /// Starts a file with its header.
    pub fn new(order: ByteOrder) -> (writer: Self)
        ensures
            writer.order() == order,
            writer.written() == file_header(order),
    {
        let mut writer = PcapWriter { order, bytes: Vec::new() };
        writer.put32(0xa1b2c3d4);
        writer.put16(2);
        writer.put16(4);
        writer.put32(0);
        writer.put32(0);
        writer.put32(65535);
        writer.put32(1);
        assert(writer.bytes@ =~= file_header(order));
        writer
    }

    /// Appends a packet with its time.
    pub fn write_packet(&mut self, secs: u64, micros: u32, packet: &[u8])
        ensures
            final(self).order() == old(self).order(),
            final(self).written() == old(self).written() + record(
                secs,
                micros,
                packet@,
                old(self).order(),
            ),
    {
        let ghost before = self.bytes@;
        self.put32(secs as u32);
        self.put32(micros);
        self.put32(packet.len() as u32);
        self.put32(packet.len() as u32);
        let ghost headed = self.bytes@;
        let mut i: usize = 0;
        while i < packet.len()
            invariant
                i <= packet@.len(),
                self.order == old(self).order,
                self.bytes@ =~= headed + packet@.take(i as int),
            decreases packet@.len() - i,
        {
            self.bytes.push(packet[i]);
            i = i + 1;
        }
        assert(packet@.take(i as int) =~= packet@);
        assert(self.bytes@ =~= before + record(secs, micros, packet@, self.order));
    }

    /// Hands the bytes out that were written since the last time.
    pub fn take(&mut self) -> (bytes: Vec<u8>)
        ensures
            bytes@ == old(self).written(),
            final(self).written() == Seq::<u8>::empty(),
            final(self).order() == old(self).order(),
    {
        let mut bytes: Vec<u8> = Vec::new();
        bytes.append(&mut self.bytes);
        bytes
    }

    fn put16(&mut self, v: u16)
        ensures
            final(self).order == old(self).order,
            final(self).bytes@ == old(self).bytes@ + ordered16(v, old(self).order),
    {
        let hi: u8 = (v / 0x100) as u8;
        let lo: u8 = (v % 0x100) as u8;
        match self.order {
            ByteOrder::Little => {
                self.bytes.push(lo);
                self.bytes.push(hi);
            },
            ByteOrder::Big => {
                self.bytes.push(hi);
                self.bytes.push(lo);
            },
        }
        assert(self.bytes@ =~= old(self).bytes@ + ordered16(v, old(self).order));
    }

    fn put32(&mut self, v: u32)
        ensures
            final(self).order == old(self).order,
            final(self).bytes@ == old(self).bytes@ + ordered32(v, old(self).order),
    {
        let b3: u8 = (v / 0x100_0000) as u8;
        let b2: u8 = (v / 0x1_0000 % 0x100) as u8;
        let b1: u8 = (v / 0x100 % 0x100) as u8;
        let b0: u8 = (v % 0x100) as u8;
        match self.order {
            ByteOrder::Little => {
                self.bytes.push(b0);
                self.bytes.push(b1);
                self.bytes.push(b2);
                self.bytes.push(b3);
            },
            ByteOrder::Big => {
                self.bytes.push(b3);
                self.bytes.push(b2);
                self.bytes.push(b1);
                self.bytes.push(b0);
            },
        }
        assert(self.bytes@ =~= old(self).bytes@ + ordered32(v, old(self).order));
    }
}

// ---------------------------------------------------------------------------
// Captures of generated traffic
// ---------------------------------------------------------------------------

/// The seconds of the time of the packet with index `i`: packets are 100
/// microseconds apart. The index is cut to 32 bits.
pub open spec fn packet_secs(i: int) -> u64 {
    (i % 0x1_0000_0000 * 100 / 1_000_000) as u64
}

/// The microseconds of the time of the packet with index `i`.
pub open spec fn packet_micros(i: int) -> u32 {
    (i % 0x1_0000_0000 * 100 % 1_000_000) as u32
}

/// The file that holds one packet for each roll.
pub open spec fn capture(profile: TestProfile, rolls: Seq<u32>, order: ByteOrder) -> Seq<u8>
    decreases rolls.len(),
{
    if rolls.len() == 0 {
        file_header(order)
    } else {
        let i = rolls.len() - 1;
        capture(profile, rolls.drop_last(), order) + record(
            packet_secs(i),
            packet_micros(i),
            packet_gen::packet(bench::params_for(profile.in_capture(rolls.last()))),
            order,
        )
    }
}

/// Adds the packet with index `i` to a file, of the kind that `roll` picks.
pub fn write_capture_packet(writer: &mut PcapWriter, profile: TestProfile, i: u64, roll: u32)
    ensures
        final(writer).order() == old(writer).order(),
        final(writer).written() == old(writer).written() + record(
            packet_secs(i as int),
            packet_micros(i as int),
            packet_gen::packet(bench::params_for(profile.in_capture(roll))),
            old(writer).order(),
        ),
{
    let packet: Vec<u8> = packet_of(profile.choose_in_capture(roll));
    let micros: u64 = i % 0x1_0000_0000 * 100;
    writer.write_packet(micros / 1_000_000, (micros % 1_000_000) as u32, packet.as_slice());
}

/// Makes a file of `count` packets of kinds that chance picks.
pub fn generate_capture(profile: TestProfile, count: u64, order: ByteOrder) -> (bytes: Vec<u8>)
    ensures
        exists|rolls: Seq<u32>|
            rolls.len() == count && (forall|i: int| 0 <= i < count ==> rolls[i] < 100) && bytes@
                == #[trigger] capture(profile, rolls, order),
{
    let mut writer = PcapWriter::new(order);
    let ghost mut rolls: Seq<u32> = Seq::empty();
    let mut i: u64 = 0;
    while i < count
        invariant
            i <= count,
            rolls.len() == i,
            forall|j: int| 0 <= j < i ==> rolls[j] < 100,
            writer.order() == order,
            writer.written() == capture(profile, rolls, order),
        decreases count - i,
    {
        let roll: u32 = roll_percent();
        write_capture_packet(&mut writer, profile, i, roll);
        proof {
            assert(rolls.push(roll).drop_last() =~= rolls);
            rolls = rolls.push(roll);
        }
        i = i + 1;
    }
    let bytes: Vec<u8> = writer.take();
    assert(bytes@ == capture(profile, rolls, order));
    bytes
}

// ---------------------------------------------------------------------------
// Laws
// ---------------------------------------------------------------------------

/// Reading the bytes of a number in the order in which they were written gives
/// the number.
pub proof fn ordered32_round_trip(v: u32, order: ByteOrder)
    ensures
        number32(ordered32(v, order), order) == v,
        ordered32(v, order).len() == 4,
{
    assert(v / 0x100_0000 <= 0xff && v / 0x100_0000 * 0x100_0000 + v / 0x1_0000 % 0x100 * 0x1_0000
        + v / 0x100 % 0x100 * 0x100 + v % 0x100 == v) by (bit_vector);
}

/// A reader finds a packet again in what follows its place in a file: its time,
/// its length and its bytes.
pub proof fn record_round_trip(
    secs: u64,
    micros: u32,
    packet: Seq<u8>,
    order: ByteOrder,
    rest: Seq<u8>,
)
    requires
        secs <= u32::MAX,
        packet.len() <= u32::MAX,
    ensures
        ({
            let bytes = record(secs, micros, packet, order) + rest;
            let len = number32(bytes.subrange(8, 12), order);
            &&& number32(bytes.subrange(0, 4), order) == secs
            &&& number32(bytes.subrange(4, 8), order) == micros
            &&& len == packet.len()
            &&& number32(bytes.subrange(12, 16), order) == len
            &&& bytes.subrange(16, 16 + len) == packet
            &&& bytes.skip(16 + len) == rest
        }),
{
    let bytes = record(secs, micros, packet, order) + rest;
    let n = packet.len() as u32;
    ordered32_round_trip(secs as u32, order);
    ordered32_round_trip(micros, order);
    ordered32_round_trip(n, order);
    assert(bytes.subrange(0, 4) =~= ordered32(secs as u32, order));
    assert(bytes.subrange(4, 8) =~= ordered32(micros, order));
    assert(bytes.subrange(8, 12) =~= ordered32(n, order));
    assert(bytes.subrange(12, 16) =~= ordered32(n, order));
    assert(bytes.subrange(16, 16 + n) =~= packet);
    assert(bytes.skip(16 + n) =~= rest);
}

/// A reader finds out the byte order of a file from its first number, and then that it
/// is of version 2.4, holds up to 65535 bytes of each packet, and that the packets are
/// Ethernet frames.
pub proof fn file_header_is_read(order: ByteOrder)
    ensures
        ({
            let h = file_header(order);
            let other = match order {
                ByteOrder::Little => ByteOrder::Big,
                ByteOrder::Big => ByteOrder::Little,
            };
            &&& h.len() == 24
            &&& number32(h.subrange(0, 4), order) == 0xa1b2c3d4
            &&& number32(h.subrange(0, 4), other) == 0xd4c3b2a1
            &&& number32(h.subrange(8, 12), order) == 0
            &&& number32(h.subrange(12, 16), order) == 0
            &&& number32(h.subrange(16, 20), order) == 65535
            &&& number32(h.subrange(20, 24), order) == 1
            &&& order == ByteOrder::Little ==> h[4] + h[5] * 256 == 2 && h[6] + h[7] * 256 == 4
            &&& order == ByteOrder::Big ==> h[5] + h[4] * 256 == 2 && h[7] + h[6] * 256 == 4
        }),
{
    let h = file_header(order);
    ordered32_round_trip(0xa1b2c3d4, order);
    ordered32_round_trip(0, order);
    ordered32_round_trip(65535, order);
    ordered32_round_trip(1, order);
    assert(h.subrange(0, 4) =~= ordered32(0xa1b2c3d4, order));
    assert(h.subrange(8, 12) =~= ordered32(0, order));
    assert(h.subrange(12, 16) =~= ordered32(0, order));
    assert(h.subrange(16, 20) =~= ordered32(65535, order));
    assert(h.subrange(20, 24) =~= ordered32(1, order));
    assert(0xa1b2c3d4u32 / 0x100_0000 == 0xa1 && 0xa1b2c3d4u32 / 0x1_0000 % 0x100 == 0xb2
        && 0xa1b2c3d4u32 / 0x100 % 0x100 == 0xc3 && 0xa1b2c3d4u32 % 0x100 == 0xd4)
        by (bit_vector);
}

/// The packets of a capture are a hundred microseconds apart, from the start on; the
/// part of the time below a second is given in microseconds.
pub proof fn packets_are_evenly_apart(i: int)
    requires
        0 <= i < 0x1_0000_0000,
    ensures
        packet_secs(i) * 1_000_000 + packet_micros(i) == 100 * i,
        packet_micros(i) < 1_000_000,
{
}

/// A capture is its header and then one packet for each roll, in their order: a longer
/// capture starts with the shorter one.
pub proof fn captures_grow(
    profile: TestProfile,
    rolls: Seq<u32>,
    more: Seq<u32>,
    order: ByteOrder,
)
    ensures
        capture(profile, Seq::empty(), order) == file_header(order),
        ({
            let whole = capture(profile, rolls + more, order);
            let start = capture(profile, rolls, order);
            start.len() <= whole.len() && whole.take(start.len() as int) == start
        }),
        more.len() == 1 ==> capture(profile, rolls + more, order) == capture(profile, rolls, order)
            + record(
            packet_secs(rolls.len() as int),
            packet_micros(rolls.len() as int),
            packet_gen::packet(bench::params_for(profile.in_capture(more[0]))),
            order,
        ),
    decreases more.len(),
{
    let whole = capture(profile, rolls + more, order);
    let start = capture(profile, rolls, order);
    if more.len() == 0 {
        assert(rolls + more =~= rolls);
        assert(whole.take(start.len() as int) =~= start);
    } else {
        captures_grow(profile, rolls, more.drop_last(), order);
        assert((rolls + more).drop_last() =~= rolls + more.drop_last());
        assert((rolls + more).last() == more.last());
        let shorter = capture(profile, rolls + more.drop_last(), order);
        assert(whole.take(start.len() as int) =~= shorter.take(start.len() as int));
        if more.len() == 1 {
            assert(rolls + more.drop_last() =~= rolls);
        }
    }
}

} // verus!
