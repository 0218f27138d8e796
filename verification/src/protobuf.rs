//! Protobuf wire format: varints, fields, and the walk that collects a tensor's
//! shape from a message.
use crate::grpc;
use crate::grpc::{parse_grpc_packet, ParseError};
use vstd::prelude::*;

verus! {

/// Room for dimensions in the array that a walk fills.
pub const MAX_SHAPE_DIMS: usize = 16;

/// What is wrong with a Protobuf payload or with the shape in it.
#[derive(Clone, Copy, Debug, PartialEq, Eq, Structural)]
pub enum ProtoError {
    InvalidVarint,
    InvalidWireType,
    RecursionLimit,
    BufferUnderflow,
    ShapeDimensionLimit,
    ShapeValueInvalid,
    TensorSizeLimit,
    InvalidVarintBytes,
}

/// Either a check of the enclosing layers failed, or one of the payload.
#[derive(Clone, Copy, Debug, PartialEq, Eq, Structural)]
pub enum ValidationError {
    Parse(ParseError),
    Proto(ProtoError),
}

/// Limits for the payload and for the shape in it.
#[derive(Debug)]
pub struct ValidationConfig {
    /// Destination port of the traffic to inspect.
    pub target_port: u16,
    /// Number of the Protobuf field that holds the shape.
    pub shape_field_number: u32,
    /// Largest number of dimensions.
    pub max_dimensions: usize,
    /// Largest number of elements in the tensor, the product of its dimensions.
    pub max_tensor_elements: u64,
    /// Largest depth of nested messages.
    pub max_recursion_depth: usize,
    /// Largest number of bytes in a varint.
    pub max_varint_bytes: usize,
}

impl Clone for ValidationConfig {
    fn clone(&self) -> (config: Self)
        ensures
            config == *self,
    {
        ValidationConfig {
            target_port: self.target_port,
            shape_field_number: self.shape_field_number,
            max_dimensions: self.max_dimensions,
            max_tensor_elements: self.max_tensor_elements,
            max_recursion_depth: self.max_recursion_depth,
            max_varint_bytes: self.max_varint_bytes,
        }
    }
}

impl ValidationConfig {
    /// The limits where none are given.
    pub open spec fn usual() -> ValidationConfig {
        ValidationConfig {
            target_port: 50051,
            shape_field_number: 1,
            max_dimensions: 4,
            max_tensor_elements: 1_000_000,
            max_recursion_depth: 3,
            max_varint_bytes: 9,
        }
    }
}

impl Default for ValidationConfig {
    fn default() -> (config: Self)
        ensures
            config == ValidationConfig::usual(),
    {
        ValidationConfig {
            target_port: 50051,
            shape_field_number: 1,
            max_dimensions: 4,
            max_tensor_elements: 1_000_000,
            max_recursion_depth: 3,
            max_varint_bytes: 9,
        }
    }
}

// ---------------------------------------------------------------------------
// Varints
// ---------------------------------------------------------------------------

/// Where the first byte without the continuation bit stands, from `at` on; the
/// length of `buf` where there is none.
pub open spec fn terminator(buf: Seq<u8>, at: int) -> int
    decreases buf.len() - at,
{
    if at >= buf.len() {
        buf.len() as int
    } else if buf[at] < 0x80 {
        at
    } else {
        terminator(buf, at + 1)
    }
}

/// The number that a varint's bytes stand for: seven bits a byte, the least
/// significant first.
pub open spec fn varint_value(bytes: Seq<u8>) -> int
    decreases bytes.len(),
{
    if bytes.len() == 0 {
        0
    } else {
        bytes[0] % 0x80 + 0x80 * varint_value(bytes.skip(1))
    }
}

/// The varint at `at`, where at most `max_bytes` bytes and never more than nine
/// are allowed, and the position after what was read of it.
pub open spec fn varint(buf: Seq<u8>, at: int, max_bytes: int) -> (Result<u64, ProtoError>, int) {
    let limit = if max_bytes < 9 {
        max_bytes
    } else {
        9
    };
    let last = terminator(buf, at);
    if last < buf.len() && last - at < limit {
        (Ok(varint_value(buf.subrange(at, last + 1)) as u64), last + 1)
    } else if buf.len() <= at {
        (Err(ProtoError::BufferUnderflow), at)
    } else if buf.len() - at <= limit {
        (Err(ProtoError::BufferUnderflow), buf.len() as int)
    } else if limit == 9 {
        (Err(ProtoError::InvalidVarint), at + 10)
    } else {
        (Err(ProtoError::InvalidVarintBytes), at + max_bytes + 1)
    }
}

/// The terminator is not before the start, and every byte before it carries on.
proof fn terminator_bounds(buf: Seq<u8>, at: int)
    requires
        0 <= at,
    ensures
        at <= buf.len() ==> at <= terminator(buf, at) <= buf.len(),
        at > buf.len() ==> terminator(buf, at) == buf.len(),
        forall|i: int| at <= i < terminator(buf, at) ==> buf[i] >= 0x80,
    decreases buf.len() - at,
{
    if at < buf.len() && buf[at] >= 0x80 {
        terminator_bounds(buf, at + 1);
    }
}

/// A varint that was read takes at least one byte, at most as many as allowed
/// and at most nine, and stays in the buffer. Its value is below 2^63.
pub proof fn varint_bounds(buf: Seq<u8>, at: int, max_bytes: int)
    requires
        0 <= at,
        0 <= max_bytes,
    ensures
        at <= varint(buf, at, max_bytes).1,
        at <= buf.len() ==> varint(buf, at, max_bytes).1 <= buf.len(),
        varint(buf, at, max_bytes) matches (Ok(v), next) ==> {
            &&& at < next <= buf.len()
            &&& next - at <= max_bytes
            &&& next - at <= 9
            &&& v < 0x8000_0000_0000_0000
            &&& v == varint_value(buf.subrange(at, next))
        },
{
    terminator_bounds(buf, at);
    let last = terminator(buf, at);
    if varint(buf, at, max_bytes).0 is Ok {
        let bytes = buf.subrange(at, last + 1);
        varint_value_bound(bytes);
        vstd::arithmetic::power2::lemma2_to64_rest();
        if bytes.len() < 9 {
            vstd::arithmetic::power2::lemma_pow2_strictly_increases(7 * bytes.len(), 63);
        }
    }
}

/// A varint of `n` bytes is below 2^(7n).
proof fn varint_value_bound(bytes: Seq<u8>)
    ensures
        0 <= varint_value(bytes) < vstd::arithmetic::power2::pow2(7 * bytes.len()),
    decreases bytes.len(),
{
    vstd::arithmetic::power2::lemma2_to64();
    if bytes.len() > 0 {
        let n = (bytes.len() - 1) as nat;
        varint_value_bound(bytes.skip(1));
        vstd::arithmetic::power2::lemma_pow2_adds(7, 7 * n);
        assert(7 * bytes.len() == 7 + 7 * n);
    }
}

/// One more byte adds its seven bits above those before it.
pub proof fn varint_value_push(bytes: Seq<u8>, b: u8)
    ensures
        varint_value(bytes.push(b)) == varint_value(bytes) + b % 0x80
            * vstd::arithmetic::power2::pow2(7 * bytes.len()),
    decreases bytes.len(),
{
    vstd::arithmetic::power2::lemma2_to64();
    if bytes.len() > 0 {
        let n = (bytes.len() - 1) as nat;
        let p = vstd::arithmetic::power2::pow2(7 * n) as int;
        let c = b as int % 0x80;
        varint_value_push(bytes.skip(1), b);
        assert(bytes.push(b).skip(1) =~= bytes.skip(1).push(b));
        vstd::arithmetic::power2::lemma_pow2_adds(7, 7 * n);
        assert(7 * bytes.len() == 7 + 7 * n);
        let q = vstd::arithmetic::power2::pow2(7 * bytes.len()) as int;
        assert(q == 0x80 * p);
        assert(c * q == 0x80 * (c * p)) by (nonlinear_arith)
            requires
                q == 0x80 * p,
        ;
        assert(bytes.push(b)[0] == bytes[0]);
        assert(varint_value(bytes.skip(1).push(b)) == varint_value(bytes.skip(1)) + c * p);
        assert(varint_value(bytes) == bytes[0] % 0x80 + 0x80 * varint_value(bytes.skip(1)));
        assert(varint_value(bytes.push(b)) == varint_value(bytes) + c * q);
    } else {
        assert(bytes.push(b).skip(1) =~= bytes);
        assert(varint_value(bytes) == 0);
        assert(varint_value(bytes.push(b)) == b % 0x80);
        assert(7 * bytes.len() == 0);
        assert(vstd::arithmetic::power2::pow2(0) == 1);
    }
}

/// Setting seven fresh bits above a number adds them.
proof fn or_is_add(val: u64, byte: u8, shift: u64)
    requires
        shift <= 56,
        val < vstd::arithmetic::power2::pow2(shift as nat),
    ensures
        val | (((byte & 0x7f) as u64) << shift) == val + byte % 0x80
            * vstd::arithmetic::power2::pow2(shift as nat),
        byte & 0x80 == 0 <==> byte < 0x80,
{
    let bits = (byte & 0x7f) as u64;
    assert(byte & 0x7f == byte % 0x80) by (bit_vector);
    assert(byte & 0x80 == 0 <==> byte < 0x80) by (bit_vector);
    let p = vstd::arithmetic::power2::pow2(shift as nat) as int;
    vstd::arithmetic::power2::lemma2_to64_rest();
    vstd::arithmetic::power2::lemma2_to64();
    if shift < 56 {
        vstd::arithmetic::power2::lemma_pow2_strictly_increases(shift as nat, 56);
    }
    assert(bits * p <= 0x7f * 0x100_0000_0000_0000) by (nonlinear_arith)
        requires
            0 <= bits <= 0x7f,
            0 <= p <= 0x100_0000_0000_0000,
    ;
    vstd::bits::lemma_u64_shl_is_mul(bits, shift);
    vstd::bits::lemma_u64_shl_is_mul(1, shift);
    assert(val | (bits << shift) == val + (bits << shift)) by (bit_vector)
        requires
            shift <= 56,
            bits <= 0x7f,
            val < 1u64 << shift,
    ;
}

/// Reads the varint at `offset` and moves `offset` past it. A varint is refused
/// where it has more than `max_bytes` bytes, or ten or more.
pub fn read_varint(buf: &[u8], offset: &mut usize, max_bytes: usize) -> (r: Result<u64, ProtoError>)
    ensures
        (r, *final(offset) as int) == varint(buf@, *old(offset) as int, max_bytes as int),
{
    let ghost start = *offset as int;
    let mut val: u64 = 0;
    let mut shift: u64 = 0;
    let mut bytes_read: usize = 0;
    proof {
        terminator_bounds(buf@, start);
        vstd::arithmetic::power2::lemma2_to64();
    }
    while *offset < buf.len()
        invariant
            start == *old(offset),
            *offset == start + bytes_read,
            *offset <= buf@.len() || bytes_read == 0,
            bytes_read <= 9,
            bytes_read <= max_bytes,
            shift == 7 * bytes_read,
            terminator(buf@, *offset as int) == terminator(buf@, start),
            bytes_read > 0 ==> terminator(buf@, start) >= *offset,
            bytes_read == 0 || val == varint_value(buf@.subrange(start, *offset as int)),
            bytes_read == 0 ==> val == 0,
            val < vstd::arithmetic::power2::pow2(shift as nat),
        decreases buf@.len() - *offset,
    {
        let byte: u8 = buf[*offset];
        let ghost here = *offset as int;
        *offset = *offset + 1;
        bytes_read = bytes_read + 1;
        proof {
            terminator_bounds(buf@, here);
            terminator_bounds(buf@, here + 1);
        }
        if bytes_read >= 10 {
            return Err(ProtoError::InvalidVarint);
        }
        if bytes_read > max_bytes {
            return Err(ProtoError::InvalidVarintBytes);
        }
        proof {
            or_is_add(val, byte, shift);
            let before = buf@.subrange(start, here);
            varint_value_push(before, byte);
            assert(before.push(byte) =~= buf@.subrange(start, here + 1));
            if bytes_read == 1 {
                assert(before =~= Seq::<u8>::empty());
            }
            varint_value_bound(buf@.subrange(start, here + 1));
        }
        val = val | (((byte & 0x7f) as u64) << shift);
        if (byte & 0x80) == 0 {
            return Ok(val);
        }
        shift = shift + 7;
    }
    Err(ProtoError::BufferUnderflow)
}


// ---------------------------------------------------------------------------
// Fields
// ---------------------------------------------------------------------------

/// The length in front of a length-delimited field at `at`, and the position
/// after it. The field ends at the position given, which must not be behind
/// `end`.
pub open spec fn delimited(buf: Seq<u8>, at: int, end: int, max_bytes: int) -> (
    Result<int, ProtoError>,
    int,
) {
    match varint(buf, at, max_bytes) {
        (Err(e), next) => (Err(e), next),
        (Ok(len), next) => if next + len > end {
            (Err(ProtoError::BufferUnderflow), next)
        } else {
            (Ok(next + len), next)
        },
    }
}

/// `size` bytes at `at`, and the position after them.
pub open spec fn fixed(buf: Seq<u8>, at: int, size: int) -> (Result<(), ProtoError>, int) {
    if at + size > buf.len() {
        (Err(ProtoError::BufferUnderflow), at)
    } else {
        (Ok(()), at + size)
    }
}

/// Passing over the content of a field of the given wire type at `at`.
pub open spec fn skipped(buf: Seq<u8>, at: int, wire_type: int, max_bytes: int) -> (
    Result<(), ProtoError>,
    int,
) {
    if wire_type == 0 {
        match varint(buf, at, max_bytes) {
            (Ok(_), next) => (Ok(()), next),
            (Err(e), next) => (Err(e), next),
        }
    } else if wire_type == 1 {
        fixed(buf, at, 8)
    } else if wire_type == 2 {
        match delimited(buf, at, buf.len() as int, max_bytes) {
            (Ok(stop), _) => (Ok(()), stop),
            (Err(e), next) => (Err(e), next),
        }
    } else if wire_type == 5 {
        fixed(buf, at, 4)
    } else {
        (Err(ProtoError::InvalidWireType), at)
    }
}

/// Reads the length at `offset`, moves `offset` past it and returns where the
/// field ends.
pub fn read_delimited(buf: &[u8], offset: &mut usize, end: usize, max_bytes: usize) -> (r: Result<
    usize,
    ProtoError,
>)
    ensures
        match (r, delimited(buf@, *old(offset) as int, end as int, max_bytes as int)) {
            (Ok(stop), (Ok(s), next)) => stop == s && *final(offset) == next,
            (Err(e), (Err(f), next)) => e == f && *final(offset) == next,
            _ => false,
        },
{
    proof {
        varint_bounds(buf@, *offset as int, max_bytes as int);
    }
    let len: u64 = match read_varint(buf, offset, max_bytes) {
        Ok(len) => len,
        Err(e) => return Err(e),
    };
    if *offset > end || len > (end - *offset) as u64 {
        return Err(ProtoError::BufferUnderflow);
    }
    Ok(*offset + len as usize)
}

/// Moves `offset` past `size` bytes.
fn skip_fixed(buf: &[u8], offset: &mut usize, size: usize) -> (r: Result<(), ProtoError>)
    ensures
        (r, *final(offset) as int) == fixed(buf@, *old(offset) as int, size as int),
{
    if *offset > buf.len() || size > buf.len() - *offset {
        return Err(ProtoError::BufferUnderflow);
    }
    *offset = *offset + size;
    Ok(())
}

/// Moves `offset` past the content of a field of the given wire type.
pub fn skip_field(buf: &[u8], offset: &mut usize, wire_type: u8, max_varint_bytes: usize) -> (r:
    Result<(), ProtoError>)
    ensures
        (r, *final(offset) as int) == skipped(
            buf@,
            *old(offset) as int,
            wire_type as int,
            max_varint_bytes as int,
        ),
{
    match wire_type {
        0 => match read_varint(buf, offset, max_varint_bytes) {
            Ok(_) => Ok(()),
            Err(e) => Err(e),
        },
        1 => skip_fixed(buf, offset, 8),
        2 => match read_delimited(buf, offset, buf.len(), max_varint_bytes) {
            Ok(stop) => {
                *offset = stop;
                Ok(())
            },
            Err(e) => Err(e),
        },
        5 => skip_fixed(buf, offset, 4),
        _ => Err(ProtoError::InvalidWireType),
    }
}

/// A field that was passed over lies in the buffer, and nothing is read
/// backwards.
pub proof fn skipped_bounds(buf: Seq<u8>, at: int, wire_type: int, max_bytes: int)
    requires
        0 <= at,
        0 <= max_bytes,
    ensures
        at <= skipped(buf, at, wire_type, max_bytes).1,
        at <= buf.len() ==> skipped(buf, at, wire_type, max_bytes).1 <= buf.len(),
        skipped(buf, at, wire_type, max_bytes).0 is Ok ==> skipped(
            buf,
            at,
            wire_type,
            max_bytes,
        ).1 <= buf.len(),
{
    varint_bounds(buf, at, max_bytes);
}

// ---------------------------------------------------------------------------
// The walk
// ---------------------------------------------------------------------------

/// Where a walk stands: its position in the buffer and the dimensions that it
/// has collected, the first `shape_len` entries of the array `shape`.
pub struct WalkState {
    pub offset: int,
    pub shape: Seq<i64>,
    pub shape_len: int,
}

/// Bytes between a position and the end in front of it.
pub open spec fn left(offset: int, end: int) -> int {
    if offset < end {
        end - offset
    } else {
        0
    }
}

/// Takes up one more dimension.
pub open spec fn push_dim(st: WalkState, dim: u64) -> (Result<(), ProtoError>, WalkState) {
    if st.shape_len >= MAX_SHAPE_DIMS {
        (Err(ProtoError::ShapeDimensionLimit), st)
    } else if dim == 0 {
        (Err(ProtoError::ShapeValueInvalid), st)
    } else {
        (
            Ok(()),
            WalkState {
                shape: st.shape.update(st.shape_len, dim as i64),
                shape_len: st.shape_len + 1,
                ..st
            },
        )
    }
}

/// Reads one varint and takes it up as a dimension.
pub open spec fn read_dim(buf: Seq<u8>, st: WalkState, max_bytes: int) -> (
    Result<(), ProtoError>,
    WalkState,
) {
    match varint(buf, st.offset, max_bytes) {
        (Err(e), next) => (Err(e), WalkState { offset: next, ..st }),
        (Ok(dim), next) => push_dim(WalkState { offset: next, ..st }, dim),
    }
}

/// Takes up dimensions one after the other while the position is before
/// `pack_end`.
pub open spec fn read_packed(buf: Seq<u8>, st: WalkState, pack_end: int, max_bytes: int) -> (
    Result<(), ProtoError>,
    WalkState,
)
    decreases left(st.offset, pack_end),
    when 0 <= st.offset && 0 <= max_bytes
{
    if st.offset >= pack_end {
        (Ok(()), st)
    } else {
        proof {
            varint_bounds(buf, st.offset, max_bytes);
        }
        match read_dim(buf, st, max_bytes) {
            (Err(e), next) => (Err(e), next),
            (Ok(_), next) => read_packed(buf, next, pack_end, max_bytes),
        }
    }
}

/// Takes up the content of a shape field: packed dimensions, or a single one.
pub open spec fn read_shape_field(
    buf: Seq<u8>,
    st: WalkState,
    end: int,
    wire_type: int,
    max_bytes: int,
) -> (Result<(), ProtoError>, WalkState) {
    if wire_type == 2 {
        match delimited(buf, st.offset, end, max_bytes) {
            (Err(e), next) => (Err(e), WalkState { offset: next, ..st }),
            (Ok(stop), next) => read_packed(buf, WalkState { offset: next, ..st }, stop, max_bytes),
        }
    } else if wire_type == 0 {
        read_dim(buf, st, max_bytes)
    } else {
        (Err(ProtoError::InvalidWireType), st)
    }
}

/// The field number in a tag.
pub open spec fn tag_field(tag: u64) -> int {
    tag as int / 8 % 0x1_0000_0000
}

/// The wire type in a tag.
pub open spec fn tag_wire_type(tag: u64) -> int {
    tag as int % 8
}

/// Nothing that takes up packed dimensions reads backwards.
proof fn packed_forward(buf: Seq<u8>, st: WalkState, pack_end: int, max_bytes: int)
    requires
        0 <= st.offset,
        0 <= max_bytes,
    ensures
        st.offset <= read_packed(buf, st, pack_end, max_bytes).1.offset,
    decreases left(st.offset, pack_end),
{
    if st.offset < pack_end {
        varint_bounds(buf, st.offset, max_bytes);
        let (r, next) = read_dim(buf, st, max_bytes);
        if r is Ok {
            packed_forward(buf, next, pack_end, max_bytes);
        }
    }
}

/// Nothing that takes up the content of a shape field reads backwards.
pub proof fn shape_field_forward(
    buf: Seq<u8>,
    st: WalkState,
    end: int,
    wire_type: int,
    max_bytes: int,
)
    requires
        0 <= st.offset,
        0 <= max_bytes,
    ensures
        st.offset <= read_shape_field(buf, st, end, wire_type, max_bytes).1.offset,
{
    varint_bounds(buf, st.offset, max_bytes);
    if let (Ok(stop), next) = delimited(buf, st.offset, end, max_bytes) {
        packed_forward(buf, WalkState { offset: next, ..st }, stop, max_bytes);
    }
}

/// Walks the fields of a message that ends at `end`, `depth` levels down.
///
/// A length-delimited field that is not the shape is walked as a message of its
/// own. Where that walk fails, the field is taken for a string: what the walk
/// collected is dropped and the field passed over. Only a message nested too
/// deep ends the whole walk.
pub open spec fn walk_fields(
    buf: Seq<u8>,
    st: WalkState,
    end: int,
    depth: int,
    config: ValidationConfig,
) -> (Result<(), ProtoError>, WalkState)
    decreases left(st.offset, end), 0int,
    when 0 <= st.offset
{
    let max_bytes = config.max_varint_bytes as int;
    if st.offset >= end {
        (Ok(()), st)
    } else {
        proof {
            varint_bounds(buf, st.offset, max_bytes);
        }
        match varint(buf, st.offset, max_bytes) {
            (Err(e), next) => (Err(e), WalkState { offset: next, ..st }),
            (Ok(tag), at) => {
                let here = WalkState { offset: at, ..st };
                let wire_type = tag_wire_type(tag);
                if tag_field(tag) == config.shape_field_number {
                    proof {
                        shape_field_forward(buf, here, end, wire_type, max_bytes);
                    }
                    match read_shape_field(buf, here, end, wire_type, max_bytes) {
                        (Err(e), next) => (Err(e), next),
                        (Ok(_), next) => walk_fields(buf, next, end, depth, config),
                    }
                } else if wire_type == 2 {
                    proof {
                        varint_bounds(buf, at, max_bytes);
                    }
                    match delimited(buf, at, end, max_bytes) {
                        (Err(e), next) => (Err(e), WalkState { offset: next, ..st }),
                        (Ok(stop), next) => {
                            let inside = WalkState { offset: next, ..st };
                            match walk(buf, inside, stop, depth + 1, config) {
                                (Ok(_), sub) => walk_fields(
                                    buf,
                                    WalkState { offset: stop, ..sub },
                                    end,
                                    depth,
                                    config,
                                ),
                                (Err(ProtoError::RecursionLimit), sub) => (
                                    Err(ProtoError::RecursionLimit),
                                    WalkState { offset: next, ..sub },
                                ),
                                (Err(_), _) => walk_fields(
                                    buf,
                                    WalkState { offset: stop, ..st },
                                    end,
                                    depth,
                                    config,
                                ),
                            }
                        },
                    }
                } else {
                    proof {
                        skipped_bounds(buf, at, wire_type, max_bytes);
                    }
                    match skipped(buf, at, wire_type, max_bytes) {
                        (Err(e), next) => (Err(e), WalkState { offset: next, ..st }),
                        (Ok(_), next) => walk_fields(
                            buf,
                            WalkState { offset: next, ..st },
                            end,
                            depth,
                            config,
                        ),
                    }
                }
            },
        }
    }
}

/// Walks a message that ends at `end`, `depth` levels down.
pub open spec fn walk(
    buf: Seq<u8>,
    st: WalkState,
    end: int,
    depth: int,
    config: ValidationConfig,
) -> (Result<(), ProtoError>, WalkState)
    decreases left(st.offset, end), 1int,
    when 0 <= st.offset
{
    if depth > config.max_recursion_depth {
        (Err(ProtoError::RecursionLimit), st)
    } else {
        walk_fields(buf, st, end, depth, config)
    }
}


/// The state that a walk's position and array stand for.
pub open spec fn walk_state(offset: usize, shape: [i64; 16], shape_len: usize) -> WalkState {
    WalkState { offset: offset as int, shape: shape@, shape_len: shape_len as int }
}

/// Reads one varint and takes it up as a dimension.
fn take_dim(
    buf: &[u8],
    offset: &mut usize,
    max_bytes: usize,
    shape: &mut [i64; 16],
    shape_len: &mut usize,
) -> (r: Result<(), ProtoError>)
    ensures
        (r, walk_state(*final(offset), *final(shape), *final(shape_len))) == read_dim(
            buf@,
            walk_state(*old(offset), *old(shape), *old(shape_len)),
            max_bytes as int,
        ),
{
    proof {
        varint_bounds(buf@, *offset as int, max_bytes as int);
    }
    let dim: u64 = match read_varint(buf, offset, max_bytes) {
        Ok(dim) => dim,
        Err(e) => return Err(e),
    };
    if *shape_len >= 16 {
        return Err(ProtoError::ShapeDimensionLimit);
    }
    if dim == 0 {
        return Err(ProtoError::ShapeValueInvalid);
    }
    shape[*shape_len] = dim as i64;
    *shape_len = *shape_len + 1;
    Ok(())
}

/// Takes up the content of a shape field.
fn take_shape_field(
    buf: &[u8],
    offset: &mut usize,
    end_offset: usize,
    wire_type: u8,
    max_bytes: usize,
    shape: &mut [i64; 16],
    shape_len: &mut usize,
) -> (r: Result<(), ProtoError>)
    ensures
        (r, walk_state(*final(offset), *final(shape), *final(shape_len))) == read_shape_field(
            buf@,
            walk_state(*old(offset), *old(shape), *old(shape_len)),
            end_offset as int,
            wire_type as int,
            max_bytes as int,
        ),
{
    if wire_type == 2 {
        let pack_end: usize = match read_delimited(buf, offset, end_offset, max_bytes) {
            Ok(stop) => stop,
            Err(e) => return Err(e),
        };
        let ghost total = read_packed(
            buf@,
            walk_state(*offset, *shape, *shape_len),
            pack_end as int,
            max_bytes as int,
        );
        while *offset < pack_end
            invariant
                read_packed(
                    buf@,
                    walk_state(*offset, *shape, *shape_len),
                    pack_end as int,
                    max_bytes as int,
                ) == total,
                total == read_shape_field(
                    buf@,
                    walk_state(*old(offset), *old(shape), *old(shape_len)),
                    end_offset as int,
                    wire_type as int,
                    max_bytes as int,
                ),
            decreases left(*offset as int, pack_end as int),
        {
            proof {
                varint_bounds(buf@, *offset as int, max_bytes as int);
            }
            match take_dim(buf, offset, max_bytes, shape, shape_len) {
                Ok(_) => {},
                Err(e) => return Err(e),
            }
        }
        Ok(())
    } else if wire_type == 0 {
        take_dim(buf, offset, max_bytes, shape, shape_len)
    } else {
        Err(ProtoError::InvalidWireType)
    }
}

/// Walks a message and the messages nested in it, and collects the shape.
pub fn walk_message(
    buf: &[u8],
    offset: &mut usize,
    end_offset: usize,
    depth: usize,
    config: &ValidationConfig,
    shape: &mut [i64; 16],
    shape_len: &mut usize,
) -> (r: Result<(), ProtoError>)
    requires
        config.max_recursion_depth < usize::MAX || depth + left(
            *old(offset) as int,
            end_offset as int,
        ) <= usize::MAX,
    ensures
        (r, walk_state(*final(offset), *final(shape), *final(shape_len))) == walk(
            buf@,
            walk_state(*old(offset), *old(shape), *old(shape_len)),
            end_offset as int,
            depth as int,
            *config,
        ),
    decreases left(*old(offset) as int, end_offset as int),
{
    if depth > config.max_recursion_depth {
        return Err(ProtoError::RecursionLimit);
    }
    let ghost total = walk_fields(
        buf@,
        walk_state(*offset, *shape, *shape_len),
        end_offset as int,
        depth as int,
        *config,
    );
    while *offset < end_offset
        invariant
            depth <= config.max_recursion_depth,
            config.max_recursion_depth < usize::MAX || depth + left(
                *old(offset) as int,
                end_offset as int,
            ) <= usize::MAX,
            *old(offset) <= *offset,
            walk_fields(
                buf@,
                walk_state(*offset, *shape, *shape_len),
                end_offset as int,
                depth as int,
                *config,
            ) == total,
            total == walk(
                buf@,
                walk_state(*old(offset), *old(shape), *old(shape_len)),
                end_offset as int,
                depth as int,
                *config,
            ),
        decreases left(*offset as int, end_offset as int),
    {
        let max_bytes: usize = config.max_varint_bytes;
        proof {
            varint_bounds(buf@, *offset as int, max_bytes as int);
        }
        let tag: u64 = match read_varint(buf, offset, max_bytes) {
            Ok(tag) => tag,
            Err(e) => return Err(e),
        };
        let field_number: u32 = (tag >> 3) as u32;
        let wire_type: u8 = (tag & 0x07) as u8;
        proof {
            tag_parts(tag);
            varint_bounds(buf@, *offset as int, max_bytes as int);
            shape_field_forward(
                buf@,
                walk_state(*offset, *shape, *shape_len),
                end_offset as int,
                wire_type as int,
                max_bytes as int,
            );
            skipped_bounds(buf@, *offset as int, wire_type as int, max_bytes as int);
        }
        if field_number == config.shape_field_number {
            match take_shape_field(
                buf,
                offset,
                end_offset,
                wire_type,
                max_bytes,
                shape,
                shape_len,
            ) {
                Ok(_) => {},
                Err(e) => return Err(e),
            }
        } else if wire_type == 2 {
            let sub_end: usize = match read_delimited(buf, offset, end_offset, max_bytes) {
                Ok(stop) => stop,
                Err(e) => return Err(e),
            };
            let mut sub_offset: usize = *offset;
            let saved_shape: [i64; 16] = *shape;
            let saved_shape_len: usize = *shape_len;
            match walk_message(
                buf,
                &mut sub_offset,
                sub_end,
                depth + 1,
                config,
                shape,
                shape_len,
            ) {
                Ok(_) => {
                    *offset = sub_end;
                },
                Err(ProtoError::RecursionLimit) => {
                    return Err(ProtoError::RecursionLimit);
                },
                Err(_) => {
                    *shape = saved_shape;
                    *shape_len = saved_shape_len;
                    *offset = sub_end;
                },
            }
        } else {
            match skip_field(buf, offset, wire_type, max_bytes) {
                Ok(_) => {},
                Err(e) => return Err(e),
            }
        }
    }
    Ok(())
}

/// The shifts and masks that take a tag apart.
pub proof fn tag_parts(tag: u64)
    ensures
        (tag >> 3) as u32 == tag_field(tag),
        (tag & 0x07) as u8 == tag_wire_type(tag),
{
    assert((tag >> 3) as u32 == tag / 8 % 0x1_0000_0000) by (bit_vector);
    assert((tag & 0x07) as u8 == tag % 8) by (bit_vector);
}


// ---------------------------------------------------------------------------
// Validation of a packet
// ---------------------------------------------------------------------------

/// The array has room for 16 dimensions, and each that was collected is
/// positive.
pub open spec fn dims_valid(st: WalkState) -> bool {
    &&& st.shape.len() == MAX_SHAPE_DIMS
    &&& 0 <= st.shape_len <= MAX_SHAPE_DIMS
    &&& forall|i: int| 0 <= i < st.shape_len ==> st.shape[i] > 0
}

proof fn read_dim_keeps_valid(buf: Seq<u8>, st: WalkState, max_bytes: int)
    requires
        0 <= st.offset,
        0 <= max_bytes,
        dims_valid(st),
    ensures
        dims_valid(read_dim(buf, st, max_bytes).1),
{
    varint_bounds(buf, st.offset, max_bytes);
}

proof fn read_packed_keeps_valid(buf: Seq<u8>, st: WalkState, pack_end: int, max_bytes: int)
    requires
        0 <= st.offset,
        0 <= max_bytes,
        dims_valid(st),
    ensures
        dims_valid(read_packed(buf, st, pack_end, max_bytes).1),
    decreases left(st.offset, pack_end),
{
    if st.offset < pack_end {
        varint_bounds(buf, st.offset, max_bytes);
        read_dim_keeps_valid(buf, st, max_bytes);
        let (r, next) = read_dim(buf, st, max_bytes);
        if r is Ok {
            read_packed_keeps_valid(buf, next, pack_end, max_bytes);
        }
    }
}

proof fn walk_fields_keeps_valid(
    buf: Seq<u8>,
    st: WalkState,
    end: int,
    depth: int,
    config: ValidationConfig,
)
    requires
        0 <= st.offset,
        dims_valid(st),
    ensures
        dims_valid(walk_fields(buf, st, end, depth, config).1),
    decreases left(st.offset, end), 0int,
{
    let max_bytes = config.max_varint_bytes as int;
    varint_bounds(buf, st.offset, max_bytes);
    if st.offset < end {
        if let (Ok(tag), at) = varint(buf, st.offset, max_bytes) {
            let here = WalkState { offset: at, ..st };
            let wire_type = tag_wire_type(tag);
            varint_bounds(buf, at, max_bytes);
            if tag_field(tag) == config.shape_field_number {
                shape_field_forward(buf, here, end, wire_type, max_bytes);
                if wire_type == 2 {
                    if let (Ok(stop), next) = delimited(buf, at, end, max_bytes) {
                        read_packed_keeps_valid(
                            buf,
                            WalkState { offset: next, ..st },
                            stop,
                            max_bytes,
                        );
                    }
                } else if wire_type == 0 {
                    read_dim_keeps_valid(buf, here, max_bytes);
                }
                let (r, next) = read_shape_field(buf, here, end, wire_type, max_bytes);
                if r is Ok {
                    walk_fields_keeps_valid(buf, next, end, depth, config);
                }
            } else if wire_type == 2 {
                if let (Ok(stop), next) = delimited(buf, at, end, max_bytes) {
                    let inside = WalkState { offset: next, ..st };
                    walk_keeps_valid(buf, inside, stop, depth + 1, config);
                    let (r, sub) = walk(buf, inside, stop, depth + 1, config);
                    walk_fields_keeps_valid(
                        buf,
                        WalkState { offset: stop, ..st },
                        end,
                        depth,
                        config,
                    );
                    walk_fields_keeps_valid(
                        buf,
                        WalkState { offset: stop, ..sub },
                        end,
                        depth,
                        config,
                    );
                }
            } else {
                skipped_bounds(buf, at, wire_type, max_bytes);
                if let (Ok(_), next) = skipped(buf, at, wire_type, max_bytes) {
                    walk_fields_keeps_valid(
                        buf,
                        WalkState { offset: next, ..st },
                        end,
                        depth,
                        config,
                    );
                }
            }
        }
    }
}

/// Whatever the bytes are, a walk that starts with positive dimensions ends with
/// positive dimensions, and with no more than fit in the array.
pub proof fn walk_keeps_valid(
    buf: Seq<u8>,
    st: WalkState,
    end: int,
    depth: int,
    config: ValidationConfig,
)
    requires
        0 <= st.offset,
        dims_valid(st),
    ensures
        dims_valid(walk(buf, st, end, depth, config).1),
    decreases left(st.offset, end), 1int,
{
    if depth <= config.max_recursion_depth {
        walk_fields_keeps_valid(buf, st, end, depth, config);
    }
}

/// Product of the dimensions, the number of elements in a tensor of that shape.
pub open spec fn element_count(shape: Seq<i64>) -> int
    decreases shape.len(),
{
    if shape.len() == 0 {
        1
    } else {
        element_count(shape.drop_last()) * shape.last()
    }
}

/// Product of the dimensions as 64-bit numbers, in their order; `None` from
/// where it exceeds 64 bits.
pub open spec fn checked_product(shape: Seq<i64>) -> Option<u64>
    decreases shape.len(),
{
    if shape.len() == 0 {
        Some(1)
    } else {
        match checked_product(shape.drop_last()) {
            None => None,
            Some(p) => if p * (shape.last() as u64) > u64::MAX {
                None
            } else {
                Some((p * (shape.last() as u64)) as u64)
            },
        }
    }
}

proof fn product_stays_none(shape: Seq<i64>, n: int)
    requires
        0 <= n <= shape.len(),
        checked_product(shape.take(n)) is None,
    ensures
        checked_product(shape) is None,
    decreases shape.len(),
{
    if n == shape.len() {
        assert(shape.take(n) =~= shape);
    } else {
        assert(shape.drop_last().take(n) =~= shape.take(n));
        product_stays_none(shape.drop_last(), n);
    }
}

/// On positive dimensions the product is the number of elements, and it is
/// missing exactly where that number exceeds 64 bits.
pub proof fn product_of_positive(shape: Seq<i64>)
    requires
        forall|i: int| 0 <= i < shape.len() ==> shape[i] > 0,
    ensures
        1 <= element_count(shape),
        checked_product(shape) == (if element_count(shape) > u64::MAX {
            None
        } else {
            Some(element_count(shape) as u64)
        }),
    decreases shape.len(),
{
    if shape.len() > 0 {
        product_of_positive(shape.drop_last());
        let e = element_count(shape.drop_last());
        let d = shape.last() as int;
        assert(e * d >= e && e * d >= 1) by (nonlinear_arith)
            requires
                e >= 1,
                d >= 1,
        ;
    }
}

/// The state in which the walk of a packet's payload starts.
pub open spec fn payload_start(buf: Seq<u8>) -> WalkState {
    WalkState {
        offset: grpc::payload_offset(buf) + 14,
        shape: Seq::new(16, |i: int| 0i64),
        shape_len: 0,
    }
}

/// What a packet's payload ends in: the walk through the payload of the HTTP/2
/// frame, from behind the gRPC header on.
pub open spec fn payload_walk(buf: Seq<u8>, config: ValidationConfig) -> (
    Result<(), ProtoError>,
    WalkState,
) {
    walk(
        buf,
        payload_start(buf),
        grpc::payload_offset(buf) + 9 + grpc::http2_payload_len(buf),
        0,
        config,
    )
}

/// What is wrong with a packet, if anything.
pub open spec fn validation_error(buf: Seq<u8>, config: ValidationConfig) -> Option<
    ValidationError,
> {
    let (walked, st) = payload_walk(buf, config);
    match grpc::parse_error(buf, config.target_port) {
        Some(e) => Some(ValidationError::Parse(e)),
        None => match walked {
            Err(e) => Some(ValidationError::Proto(e)),
            Ok(_) => if st.shape_len > config.max_dimensions {
                Some(ValidationError::Proto(ProtoError::ShapeDimensionLimit))
            } else if st.shape_len > 0 && element_count(st.shape.take(st.shape_len))
                > config.max_tensor_elements {
                Some(ValidationError::Proto(ProtoError::TensorSizeLimit))
            } else {
                None
            },
        },
    }
}

/// Parses the enclosing layers, walks the payload and validates the tensor's
/// shape. The dimensions are the first entries of the array; their number
/// stands beside it.
pub fn validate_grpc_protobuf_packet(buf: &[u8], config: &ValidationConfig) -> (r: Result<
    ([i64; 16], usize),
    ValidationError,
>)
    ensures
        match r {
            Ok((shape, shape_len)) => {
                &&& validation_error(buf@, *config) is None
                &&& shape@ == payload_walk(buf@, *config).1.shape
                &&& shape_len == payload_walk(buf@, *config).1.shape_len
                &&& shape_len <= 16
                &&& forall|i: int| 0 <= i < shape_len ==> shape[i] > 0
            },
            Err(e) => validation_error(buf@, *config) == Some(e),
        },
{
    let parsed = match parse_grpc_packet(buf, config.target_port) {
        Ok(parsed) => parsed,
        Err(e) => return Err(ValidationError::Parse(e)),
    };
    let payload: usize = parsed.payload_offset();
    proof {
        parsed.offsets_match(buf@);
    }
    let proto_start: usize = payload + 14;
    let proto_end: usize = payload + 9 + parsed.http2.payload_len();

    let mut shape: [i64; 16] = [0i64; 16];
    let mut shape_len: usize = 0;
    let mut offset: usize = proto_start;
    proof {
        assert(shape@ =~= payload_start(buf@).shape);
        walk_keeps_valid(buf@, payload_start(buf@), proto_end as int, 0, *config);
    }
    match walk_message(buf, &mut offset, proto_end, 0, config, &mut shape, &mut shape_len) {
        Ok(_) => {},
        Err(e) => return Err(ValidationError::Proto(e)),
    }

    if shape_len > config.max_dimensions {
        return Err(ValidationError::Proto(ProtoError::ShapeDimensionLimit));
    }
    if shape_len > 0 {
        proof {
            product_of_positive(shape@.take(shape_len as int));
        }
        match element_product(&shape[0..shape_len]) {
            Some(total) => {
                if total > config.max_tensor_elements {
                    return Err(ValidationError::Proto(ProtoError::TensorSizeLimit));
                }
            },
            None => return Err(ValidationError::Proto(ProtoError::TensorSizeLimit)),
        }
    }
    Ok((shape, shape_len))
}

/// Product of the dimensions as 64-bit numbers, in their order; `None` from
/// where it exceeds 64 bits.
pub fn element_product(shape: &[i64]) -> (r: Option<u64>)
    ensures
        r == checked_product(shape@),
{
    let mut total: u64 = 1;
    let mut i: usize = 0;
    proof {
        assert(shape@.take(0) =~= Seq::<i64>::empty());
    }
    while i < shape.len()
        invariant
            i <= shape@.len(),
            checked_product(shape@.take(i as int)) == Some(total),
        decreases shape@.len() - i,
    {
        proof {
            assert(shape@.take(i + 1).drop_last() =~= shape@.take(i as int));
        }
        match total.checked_mul(shape[i] as u64) {
            Some(t) => {
                total = t;
            },
            None => {
                proof {
                    product_stays_none(shape@, i + 1);
                }
                return None;
            },
        }
        i = i + 1;
    }
    assert(shape@.take(i as int) =~= shape@);
    Some(total)
}

// ---------------------------------------------------------------------------
// Laws
// ---------------------------------------------------------------------------

/// `inner` wrapped `levels` times in a length-delimited field 2.
pub open spec fn nested(levels: nat, inner: Seq<u8>) -> Seq<u8>
    decreases levels,
{
    if levels == 0 {
        inner
    } else {
        let content = nested((levels - 1) as nat, inner);
        seq![0x12u8, content.len() as u8] + content
    }
}

/// A varint of a single byte.
pub proof fn single_byte_varint(buf: Seq<u8>, at: int, max_bytes: int)
    requires
        0 <= at < buf.len(),
        buf[at] < 0x80,
        1 <= max_bytes,
    ensures
        varint(buf, at, max_bytes) == (Ok::<u64, ProtoError>(buf[at] as u64), at + 1),
{
    let bytes = buf.subrange(at, at + 1);
    assert(terminator(buf, at) == at);
    assert(bytes.skip(1) =~= Seq::<u8>::empty());
    assert(varint_value(bytes.skip(1)) == 0);
    assert(varint_value(bytes) == bytes[0] % 0x80 + 0x80 * varint_value(bytes.skip(1)));
}

/// A varint of two bytes.
pub proof fn two_byte_varint(buf: Seq<u8>, at: int, max_bytes: int)
    requires
        0 <= at,
        at + 1 < buf.len(),
        buf[at] >= 0x80,
        buf[at + 1] < 0x80,
        2 <= max_bytes,
    ensures
        varint(buf, at, max_bytes) == (
            Ok::<u64, ProtoError>((buf[at] % 0x80 + 0x80 * buf[at + 1]) as u64),
            at + 2,
        ),
{
    let bytes = buf.subrange(at, at + 2);
    assert(terminator(buf, at + 1) == at + 1);
    assert(terminator(buf, at) == at + 1);
    assert(bytes.skip(1).skip(1) =~= Seq::<u8>::empty());
    assert(varint_value(bytes.skip(1).skip(1)) == 0);
    assert(varint_value(bytes.skip(1)) == bytes[1] % 0x80);
    assert(varint_value(bytes) == bytes[0] % 0x80 + 0x80 * varint_value(bytes.skip(1)));
}

/// A message nested deeper than allowed is refused, whatever is inside it.
pub proof fn deep_nesting_is_refused(
    buf: Seq<u8>,
    st: WalkState,
    levels: nat,
    inner: Seq<u8>,
    depth: int,
    config: ValidationConfig,
)
    requires
        0 <= st.offset,
        st.offset + nested(levels, inner).len() <= buf.len(),
        buf.subrange(st.offset, st.offset + nested(levels, inner).len()) == nested(levels, inner),
        nested(levels, inner).len() < 0x80,
        config.shape_field_number != 2,
        config.max_varint_bytes >= 1,
        depth + levels > config.max_recursion_depth,
    ensures
        walk(buf, st, st.offset + nested(levels, inner).len(), depth, config).0 == Err::<(), _>(
            ProtoError::RecursionLimit,
        ),
    decreases levels,
{
    if depth <= config.max_recursion_depth {
        let at = st.offset;
        let whole = nested(levels, inner);
        let content = nested((levels - 1) as nat, inner);
        let end = at + whole.len();
        let max_bytes = config.max_varint_bytes as int;
        assert(buf.subrange(at, end)[0] == 0x12);
        assert(buf.subrange(at, end)[1] == content.len() as u8);
        single_byte_varint(buf, at, max_bytes);
        single_byte_varint(buf, at + 1, max_bytes);
        let inside = WalkState { offset: at + 2, ..st };
        assert(buf.subrange(at + 2, end) =~= content) by {
            assert(whole.skip(2) =~= content);
            assert(buf.subrange(at, end).skip(2) =~= buf.subrange(at + 2, end));
        }
        deep_nesting_is_refused(buf, inside, (levels - 1) as nat, inner, depth + 1, config);
    }
}

/// A packet that passes validation parses, and its tensor has no more dimensions
/// and no more elements than allowed.
pub proof fn valid_packet_means(buf: Seq<u8>, config: ValidationConfig)
    requires
        validation_error(buf, config) is None,
    ensures
        grpc::parse_error(buf, config.target_port) is None,
        payload_walk(buf, config).0 is Ok,
        dims_valid(payload_walk(buf, config).1),
        payload_walk(buf, config).1.shape_len <= config.max_dimensions,
        payload_walk(buf, config).1.shape_len > 0 ==> element_count(
            payload_walk(buf, config).1.shape.take(payload_walk(buf, config).1.shape_len),
        ) <= config.max_tensor_elements,
{
    walk_keeps_valid(
        buf,
        payload_start(buf),
        grpc::payload_offset(buf) + 9 + grpc::http2_payload_len(buf),
        0,
        config,
    );
}

/// The limits where none are given.
pub proof fn usual_limits()
    ensures
        ValidationConfig::usual().target_port == 50051,
        ValidationConfig::usual().shape_field_number == 1,
        ValidationConfig::usual().max_dimensions == 4,
        ValidationConfig::usual().max_tensor_elements == 1_000_000,
        ValidationConfig::usual().max_recursion_depth == 3,
        ValidationConfig::usual().max_varint_bytes == 9,
{
}

} // verus!
