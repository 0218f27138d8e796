//! Settings and steps that every packet processor shares.
use crate::text::same_text;
use vstd::prelude::*;

verus! {

/// Bytes in one frame of the packet buffer.
pub const UMEM_FRAME_SIZE: u32 = 2048;

/// Descriptors in the fill ring and in the completion ring.
pub const UMEM_RING_SIZE: u32 = 2048;

/// What a processor does with a packet that passed validation.
#[derive(Clone, Copy, Debug, PartialEq, Eq, Structural)]
pub enum OperationMode {
    /// Put its frame back into use.
    Drop,
    /// Send it on as it is.
    Forward,
    /// Send it back with its Ethernet addresses swapped.
    Echo,
}

/// The quoted and escaped form of a text that `Debug` gives.
pub uninterp spec fn quoted(s: Seq<char>) -> Seq<char>;

/// `format!` with `{:?}` on a `str`: the text in quotes, with escapes, named
/// `quoted`.
#[verifier::external_body]
fn quote(s: &str) -> (r: String)
    ensures
        r@ == quoted(s@),
{
    format!("{:?}", s)
}

/// The message for a text that names no mode, given its quoted form.
pub open spec fn unknown_mode(quoted: Seq<char>) -> Seq<char> {
    "unknown operation mode "@ + quoted + "; expected one of: drop, forward, echo"@
}

/// The message for a text that names no mode, given its quoted form.
pub fn unknown_mode_message(quoted: &str) -> (m: String)
    ensures
        m@ == unknown_mode(quoted@),
{
    let mut m: String = "unknown operation mode ".to_owned();
    m.append(quoted);
    m.append("; expected one of: drop, forward, echo");
    m
}

impl OperationMode {
    /// The name of the mode.
    pub open spec fn name(self) -> Seq<char> {
        match self {
            OperationMode::Drop => "drop"@,
            OperationMode::Forward => "forward"@,
            OperationMode::Echo => "echo"@,
        }
    }

    /// The mode of this name.
    pub open spec fn named(s: Seq<char>) -> Option<OperationMode> {
        if s == "drop"@ {
            Some(OperationMode::Drop)
        } else if s == "forward"@ {
            Some(OperationMode::Forward)
        } else if s == "echo"@ {
            Some(OperationMode::Echo)
        } else {
            None
        }
    }

    /// The mode of this name, or a message that quotes the text.
    pub fn from_str(s: &str) -> (r: Result<OperationMode, String>)
        ensures
            match OperationMode::named(s@) {
                Some(mode) => r == Ok::<OperationMode, String>(mode),
                None => r is Err && r->Err_0@ == unknown_mode(quoted(s@)),
            },
    {
        if same_text(s, "drop") {
            Ok(OperationMode::Drop)
        } else if same_text(s, "forward") {
            Ok(OperationMode::Forward)
        } else if same_text(s, "echo") {
            Ok(OperationMode::Echo)
        } else {
            Err(unknown_mode_message(quote(s).as_str()))
        }
    }

    /// The name of the mode.
    pub fn to_text(&self) -> (s: String)
        ensures
            s@ == self.name(),
    {
        match self {
            OperationMode::Drop => "drop".to_owned(),
            OperationMode::Forward => "forward".to_owned(),
            OperationMode::Echo => "echo".to_owned(),
        }
    }
}

/// The name of a mode names that mode.
pub proof fn mode_name_round_trip(mode: OperationMode)
    ensures
        OperationMode::named(mode.name()) == Some(mode),
{
    reveal_strlit("drop");
    reveal_strlit("forward");
    reveal_strlit("echo");
    assert("drop"@.len() == 4 && "forward"@.len() == 7 && "echo"@.len() == 4);
    assert("drop"@[0] == 'd' && "echo"@[0] == 'e');
}

/// A packet with its Ethernet addresses, the first twelve bytes, swapped. A
/// shorter packet stays as it is.
pub open spec fn macs_swapped(buf: Seq<u8>) -> Seq<u8> {
    if buf.len() < 12 {
        buf
    } else {
        buf.subrange(6, 12) + buf.subrange(0, 6) + buf.skip(12)
    }
}

/// Swaps the Ethernet addresses of a packet.
pub fn swap_macs(buf: &mut [u8])
    ensures
        final(buf)@ == macs_swapped(old(buf)@),
{
    if buf.len() < 12 {
        return;
    }
    let ghost before = buf@;
    let mut i: usize = 0;
    while i < 6
        invariant
            i <= 6,
            before == old(buf)@,
            buf@.len() == before.len(),
            before.len() >= 12,
            forall|j: int|
                0 <= j < before.len() ==> #[trigger] buf@[j] == if j < i {
                    before[j + 6]
                } else if 6 <= j < 6 + i {
                    before[j - 6]
                } else {
                    before[j]
                },
        decreases 6 - i,
    {
        let dst: u8 = buf[i];
        let src: u8 = buf[i + 6];
        buf[i] = src;
        buf[i + 6] = dst;
        i = i + 1;
    }
    assert(buf@ =~= macs_swapped(before));
}

/// Swapping twice gives the packet back, and only the addresses change.
pub proof fn swap_macs_twice(buf: Seq<u8>)
    ensures
        macs_swapped(macs_swapped(buf)) == buf,
        macs_swapped(buf).len() == buf.len(),
        forall|i: int| 12 <= i < buf.len() ==> macs_swapped(buf)[i] == buf[i],
{
    assert(macs_swapped(macs_swapped(buf)) =~= buf);
}

/// The first address goes where the second was, and the other way round.
pub proof fn swapped_addresses(buf: Seq<u8>)
    requires
        buf.len() >= 12,
    ensures
        macs_swapped(buf).subrange(0, 6) == buf.subrange(6, 12),
        macs_swapped(buf).subrange(6, 12) == buf.subrange(0, 6),
        macs_swapped(buf).skip(12) == buf.skip(12),
{
    assert(macs_swapped(buf).subrange(0, 6) =~= buf.subrange(6, 12));
    assert(macs_swapped(buf).subrange(6, 12) =~= buf.subrange(0, 6));
    assert(macs_swapped(buf).skip(12) =~= buf.skip(12));
}

/// A text names a mode only where it is the name of that mode.
pub proof fn only_names_name_modes(s: Seq<char>)
    ensures
        forall|mode: OperationMode| OperationMode::named(s) == Some(mode) ==> s == #[trigger]
            mode.name(),
        OperationMode::named(s) is None <==> s != "drop"@ && s != "forward"@ && s != "echo"@,
{
}

} // verus!
