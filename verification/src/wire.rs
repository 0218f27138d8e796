//! Messages as their writer sees them, the bytes that they are written as, and what a
//! reader makes of those bytes.
use crate::grpc;
use crate::protobuf;
use crate::protobuf::{ProtoError, ValidationConfig, ValidationError, WalkState};
use vstd::arithmetic::power2::pow2;
use vstd::prelude::*;

verus! {

// ---------------------------------------------------------------------------
// Writing
// ---------------------------------------------------------------------------

/// A number as a varint: seven bits a byte, the least significant first, and the
/// continuation bit on every byte but the last.
pub open spec fn varint_bytes(n: nat) -> Seq<u8>
    decreases n,
{
    if n < 128 {
        seq![n as u8]
    } else {
        seq![(128 + n % 128) as u8] + varint_bytes(n / 128)
    }
}

/// The tag in front of a field.
pub open spec fn tag_bytes(field: u32, wire_type: int) -> Seq<u8> {
    varint_bytes((field * 8 + wire_type) as nat)
}

/// Numbers as varints, one behind the other.
pub open spec fn numbers_bytes(values: Seq<u64>) -> Seq<u8>
    decreases values.len(),
{
    if values.len() == 0 {
        Seq::empty()
    } else {
        varint_bytes(values[0] as nat) + numbers_bytes(values.skip(1))
    }
}

/// A message: a field, and the fields behind it.
pub enum Message {
    /// No more fields.
    End,
    /// A number.
    Number { field: u32, value: u64, rest: Box<Message> },
    /// Four or eight bytes.
    Fixed { field: u32, bytes: Seq<u8>, rest: Box<Message> },
    /// Numbers in a row.
    Numbers { field: u32, values: Seq<u64>, rest: Box<Message> },
    /// A message of its own.
    Nested { field: u32, content: Box<Message>, rest: Box<Message> },
    /// A text. It may start like a message, with `start`, but goes on with a byte that
    /// begins no field.
    Text { field: u32, start: Box<Message>, tail: Seq<u8>, rest: Box<Message> },
}

/// The wire type of a field of fixed length.
pub open spec fn fixed_type(bytes: Seq<u8>) -> int {
    if bytes.len() == 8 {
        1
    } else {
        5
    }
}

/// The bytes that a message is written as.
pub open spec fn encoded(m: Message) -> Seq<u8>
    decreases m,
{
    match m {
        Message::End => Seq::empty(),
        Message::Number { field, value, rest } => tag_bytes(field, 0) + (varint_bytes(value as nat)
            + encoded(*rest)),
        Message::Fixed { field, bytes, rest } => tag_bytes(field, fixed_type(bytes)) + (bytes
            + encoded(*rest)),
        Message::Numbers { field, values, rest } => tag_bytes(field, 2) + (varint_bytes(
            numbers_bytes(values).len(),
        ) + (numbers_bytes(values) + encoded(*rest))),
        Message::Nested { field, content, rest } => tag_bytes(field, 2) + (varint_bytes(
            encoded(*content).len(),
        ) + (encoded(*content) + encoded(*rest))),
        Message::Text { field, start, tail, rest } => tag_bytes(field, 2) + (varint_bytes(
            (encoded(*start) + tail).len(),
        ) + ((encoded(*start) + tail) + encoded(*rest))),
    }
}

/// A text cannot be taken for a message: the byte behind its start is a tag with a
/// wire type that no field has.
pub open spec fn is_no_field(tail: Seq<u8>) -> bool {
    tail.len() > 0 && tail[0] < 0x80 && (tail[0] % 8 == 3 || tail[0] % 8 == 4 || tail[0] % 8 == 6
        || tail[0] % 8 == 7)
}

/// The message keeps to the schema: the fields of `shapes` hold positive numbers, and
/// the others hold anything but rows of numbers.
pub open spec fn sound(m: Message, shapes: Set<u32>) -> bool
    decreases m,
{
    match m {
        Message::End => true,
        Message::Number { field, value, rest } => {
            &&& value < 0x8000_0000_0000_0000
            &&& shapes.contains(field) ==> value > 0
            &&& sound(*rest, shapes)
        },
        Message::Fixed { field, bytes, rest } => {
            &&& !shapes.contains(field)
            &&& bytes.len() == 4 || bytes.len() == 8
            &&& sound(*rest, shapes)
        },
        Message::Numbers { field, values, rest } => {
            &&& shapes.contains(field)
            &&& forall|i: int|
                0 <= i < values.len() ==> 0 < #[trigger] values[i] < 0x8000_0000_0000_0000
            &&& sound(*rest, shapes)
        },
        Message::Nested { field, content, rest } => {
            &&& !shapes.contains(field)
            &&& sound(*content, shapes)
            &&& sound(*rest, shapes)
        },
        Message::Text { field, start, tail, rest } => {
            &&& !shapes.contains(field)
            &&& sound(*start, shapes)
            &&& is_no_field(tail)
            &&& sound(*rest, shapes)
        },
    }
}

/// No varint of the message, be it a tag, a length or a number, has more than `max`
/// bytes.
pub open spec fn narrow(m: Message, max: int) -> bool
    decreases m,
{
    match m {
        Message::End => true,
        Message::Number { field, value, rest } => {
            &&& tag_bytes(field, 0).len() <= max
            &&& varint_bytes(value as nat).len() <= max
            &&& narrow(*rest, max)
        },
        Message::Fixed { field, bytes, rest } => {
            &&& tag_bytes(field, fixed_type(bytes)).len() <= max
            &&& narrow(*rest, max)
        },
        Message::Numbers { field, values, rest } => {
            &&& tag_bytes(field, 2).len() <= max
            &&& varint_bytes(numbers_bytes(values).len()).len() <= max
            &&& forall|i: int|
                0 <= i < values.len() ==> varint_bytes(#[trigger] values[i] as nat).len() <= max
            &&& narrow(*rest, max)
        },
        Message::Nested { field, content, rest } => {
            &&& tag_bytes(field, 2).len() <= max
            &&& varint_bytes(encoded(*content).len()).len() <= max
            &&& narrow(*content, max)
            &&& narrow(*rest, max)
        },
        Message::Text { field, start, tail, rest } => {
            &&& tag_bytes(field, 2).len() <= max
            &&& varint_bytes((encoded(*start) + tail).len()).len() <= max
            &&& narrow(*start, max)
            &&& narrow(*rest, max)
        },
    }
}

/// How many levels of messages are nested in the message. A text counts as a level: a
/// reader cannot tell it from a message before it has looked inside.
pub open spec fn height(m: Message) -> int
    decreases m,
{
    match m {
        Message::End => 0,
        Message::Number { rest, .. } => height(*rest),
        Message::Fixed { rest, .. } => height(*rest),
        Message::Numbers { rest, .. } => height(*rest),
        Message::Nested { content, rest, .. } => if 1 + height(*content) > height(*rest) {
            1 + height(*content)
        } else {
            height(*rest)
        },
        Message::Text { start, rest, .. } => if 1 + height(*start) > height(*rest) {
            1 + height(*start)
        } else {
            height(*rest)
        },
    }
}

/// The numbers in the fields of `shapes`, in the order in which they are written, in
/// the message and in those nested in it.
pub open spec fn all_dims(m: Message, shapes: Set<u32>) -> Seq<u64>
    decreases m,
{
    match m {
        Message::End => Seq::empty(),
        Message::Number { field, value, rest } => if shapes.contains(field) {
            seq![value] + all_dims(*rest, shapes)
        } else {
            all_dims(*rest, shapes)
        },
        Message::Fixed { rest, .. } => all_dims(*rest, shapes),
        Message::Numbers { values, rest, .. } => values + all_dims(*rest, shapes),
        Message::Nested { content, rest, .. } => all_dims(*content, shapes) + all_dims(
            *rest,
            shapes,
        ),
        Message::Text { rest, .. } => all_dims(*rest, shapes),
    }
}

/// How many numbers a reader takes for dimensions, those at the start of texts among
/// them.
pub open spec fn dims_met(m: Message, shapes: Set<u32>) -> nat
    decreases m,
{
    match m {
        Message::End => 0,
        Message::Number { field, rest, .. } => dims_met(*rest, shapes) + if shapes.contains(field) {
            1nat
        } else {
            0nat
        },
        Message::Fixed { rest, .. } => dims_met(*rest, shapes),
        Message::Numbers { values, rest, .. } => values.len() + dims_met(*rest, shapes),
        Message::Nested { content, rest, .. } => dims_met(*content, shapes) + dims_met(
            *rest,
            shapes,
        ),
        Message::Text { start, rest, .. } => dims_met(*start, shapes) + dims_met(*rest, shapes),
    }
}

/// `bytes` stand in `buf` at `at`.
pub open spec fn stands_at(buf: Seq<u8>, at: int, bytes: Seq<u8>) -> bool {
    &&& 0 <= at
    &&& at + bytes.len() <= buf.len()
    &&& buf.subrange(at, at + bytes.len()) == bytes
}

/// What stands somewhere stands there piece by piece.
pub proof fn stands_in_pieces(buf: Seq<u8>, at: int, a: Seq<u8>, b: Seq<u8>)
    requires
        stands_at(buf, at, a + b),
    ensures
        stands_at(buf, at, a),
        stands_at(buf, at + a.len(), b),
{
    let whole = buf.subrange(at, at + (a + b).len());
    assert(buf.subrange(at, at + a.len()) =~= whole.subrange(0, a.len() as int));
    assert(whole.subrange(0, a.len() as int) =~= a);
    assert(buf.subrange(at + a.len(), at + a.len() + b.len()) =~= whole.subrange(
        a.len() as int,
        (a + b).len() as int,
    ));
    assert(whole.subrange(a.len() as int, (a + b).len() as int) =~= b);
}

// ---------------------------------------------------------------------------
// Varints
// ---------------------------------------------------------------------------

/// A number below 2^(7k) takes at most k bytes.
pub proof fn varint_bytes_len(n: nat, k: nat)
    requires
        n < pow2(7 * k),
        k >= 1,
    ensures
        1 <= varint_bytes(n).len() <= k,
    decreases n,
{
    vstd::arithmetic::power2::lemma2_to64();
    if n >= 128 {
        if k == 1 {
            assert(pow2(7) == 128);
        }
        let j = (k - 1) as nat;
        vstd::arithmetic::power2::lemma_pow2_adds(7, 7 * j);
        assert(7 * k == 7 + 7 * j);
        assert(n / 128 < pow2(7 * j));
        varint_bytes_len(n / 128, j);
    }
}

/// The bytes of a varint stand for the number, and only the last has no continuation
/// bit.
proof fn varint_bytes_value(n: nat)
    ensures
        protobuf::varint_value(varint_bytes(n)) == n,
        varint_bytes(n).len() >= 1,
        varint_bytes(n).last() < 0x80,
        forall|i: int| 0 <= i < varint_bytes(n).len() - 1 ==> varint_bytes(n)[i] >= 0x80,
    decreases n,
{
    let bytes = varint_bytes(n);
    if n < 128 {
        assert(bytes.skip(1) =~= Seq::<u8>::empty());
        assert(protobuf::varint_value(bytes.skip(1)) == 0);
    } else {
        let rest = varint_bytes(n / 128);
        varint_bytes_value(n / 128);
        assert(bytes.skip(1) =~= rest);
        assert(bytes.last() == rest.last());
        assert(forall|i: int| 1 <= i < bytes.len() ==> bytes[i] == rest[i - 1]);
        assert(bytes[0] as int % 128 == n % 128);
    }
}

proof fn terminator_found(buf: Seq<u8>, at: int, last: int)
    requires
        0 <= at <= last < buf.len(),
        forall|i: int| at <= i < last ==> buf[i] >= 0x80,
        buf[last] < 0x80,
    ensures
        protobuf::terminator(buf, at) == last,
    decreases last - at,
{
    if at < last {
        terminator_found(buf, at + 1, last);
    }
}

/// A number that was written as a varint is read back, wherever it stands, if varints
/// may have as many bytes. The reader then stands right behind it.
pub proof fn varint_round_trip(buf: Seq<u8>, at: int, n: nat, max: int)
    requires
        stands_at(buf, at, varint_bytes(n)),
        n < 0x8000_0000_0000_0000,
        varint_bytes(n).len() <= max,
    ensures
        protobuf::varint(buf, at, max) == (
            Ok::<u64, ProtoError>(n as u64),
            at + varint_bytes(n).len(),
        ),
        1 <= varint_bytes(n).len() <= 9,
{
    let bytes = varint_bytes(n);
    let last = at + bytes.len() - 1;
    varint_bytes_value(n);
    vstd::arithmetic::power2::lemma2_to64_rest();
    varint_bytes_len(n, 9);
    assert(buf.subrange(at, at + bytes.len())[bytes.len() - 1] == bytes.last());
    assert forall|i: int| at <= i < last implies buf[i] >= 0x80 by {
        assert(buf.subrange(at, at + bytes.len())[i - at] == bytes[i - at]);
    }
    terminator_found(buf, at, last);
}

/// The low seven bits of the bytes, each worth 128 times as much as the one before.
pub open spec fn weighted(bytes: Seq<u8>) -> int
    decreases bytes.len(),
{
    if bytes.len() == 0 {
        0
    } else {
        weighted(bytes.drop_last()) + bytes.last() % 0x80 * pow2(7 * (bytes.len() - 1) as nat)
    }
}

proof fn weighted_is_value(bytes: Seq<u8>)
    ensures
        protobuf::varint_value(bytes) == weighted(bytes),
    decreases bytes.len(),
{
    if bytes.len() > 0 {
        let front = bytes.drop_last();
        weighted_is_value(front);
        protobuf::varint_value_push(front, bytes.last());
        assert(front.push(bytes.last()) =~= bytes);
        assert(7 * front.len() == 7 * (bytes.len() - 1) as nat);
    }
}

/// Any bytes of which only the last has no continuation bit are read as one number, by
/// their weights, also where fewer bytes would have done; the reader then stands right
/// behind them.
pub proof fn any_varint_is_read(buf: Seq<u8>, at: int, bytes: Seq<u8>, max: int)
    requires
        stands_at(buf, at, bytes),
        1 <= bytes.len() <= 9,
        bytes.len() <= max,
        bytes.last() < 0x80,
        forall|i: int| 0 <= i < bytes.len() - 1 ==> bytes[i] >= 0x80,
    ensures
        protobuf::varint(buf, at, max) == (
            Ok::<u64, ProtoError>(weighted(bytes) as u64),
            at + bytes.len(),
        ),
        0 <= weighted(bytes) < 0x8000_0000_0000_0000,
{
    let last = at + bytes.len() - 1;
    let whole = buf.subrange(at, at + bytes.len());
    assert(whole[bytes.len() - 1] == bytes.last());
    assert forall|i: int| at <= i < last implies buf[i] >= 0x80 by {
        assert(whole[i - at] == bytes[i - at]);
    }
    terminator_found(buf, at, last);
    weighted_is_value(bytes);
    protobuf::varint_bounds(buf, at, max);
    weighted_bound(bytes);
}

proof fn weighted_bound(bytes: Seq<u8>)
    requires
        bytes.len() <= 9,
    ensures
        0 <= weighted(bytes) < 0x8000_0000_0000_0000,
{
    weighted_below(bytes);
    vstd::arithmetic::power2::lemma2_to64_rest();
    if bytes.len() < 9 {
        vstd::arithmetic::power2::lemma_pow2_strictly_increases(7 * bytes.len(), 63);
    }
}

proof fn weighted_below(bytes: Seq<u8>)
    ensures
        0 <= weighted(bytes) < pow2(7 * bytes.len()),
    decreases bytes.len(),
{
    vstd::arithmetic::power2::lemma2_to64();
    if bytes.len() > 0 {
        let n = (bytes.len() - 1) as nat;
        weighted_below(bytes.drop_last());
        vstd::arithmetic::power2::lemma_pow2_adds(7, 7 * n);
        assert(7 * bytes.len() == 7 + 7 * n);
        let p = pow2(7 * n) as int;
        let d = bytes.last() as int % 0x80;
        assert(0 <= d * p <= 127 * p) by (nonlinear_arith)
            requires
                0 <= d <= 127,
                0 <= p,
        ;
    }
}

/// A number that would take more bytes than allowed is refused: as an invalid varint
/// where not even nine bytes end it, otherwise for its bytes.
pub proof fn wide_varint_is_refused(buf: Seq<u8>, at: int, max: int)
    requires
        0 <= at,
        0 <= max,
        forall|i: int| at <= i < at + max && i < at + 9 ==> 0x80 <= #[trigger] buf[i],
        at + max < buf.len(),
        at + 9 < buf.len(),
    ensures
        max < 9 ==> protobuf::varint(buf, at, max).0 == Err::<u64, _>(
            ProtoError::InvalidVarintBytes,
        ),
        max >= 9 ==> protobuf::varint(buf, at, max).0 == Err::<u64, _>(ProtoError::InvalidVarint),
{
    let limit = if max < 9 {
        max
    } else {
        9
    };
    continued(buf, at, at + limit);
}

/// A varint that the bytes end in the middle of is refused as running out of them.
pub proof fn cut_varint_is_refused(buf: Seq<u8>, at: int, max: int)
    requires
        0 <= at,
        0 <= max,
        forall|i: int| at <= i < buf.len() ==> 0x80 <= #[trigger] buf[i],
        buf.len() - at <= max,
        buf.len() - at <= 9,
    ensures
        protobuf::varint(buf, at, max).0 == Err::<u64, _>(ProtoError::BufferUnderflow),
{
    if at <= buf.len() {
        continued(buf, at, buf.len() as int);
    }
}

/// Bytes with the continuation bit end no varint.
proof fn continued(buf: Seq<u8>, at: int, to: int)
    requires
        0 <= at <= to <= buf.len(),
        forall|i: int| at <= i < to ==> 0x80 <= #[trigger] buf[i],
    ensures
        protobuf::terminator(buf, at) >= to,
    decreases to - at,
{
    if at < to {
        continued(buf, at + 1, to);
    } else {
        continued_bound(buf, at);
    }
}

proof fn continued_bound(buf: Seq<u8>, at: int)
    requires
        0 <= at <= buf.len(),
    ensures
        protobuf::terminator(buf, at) >= at,
    decreases buf.len() - at,
{
    if at < buf.len() && buf[at] >= 0x80 {
        continued_bound(buf, at + 1);
    }
}

// ---------------------------------------------------------------------------
// Walks
// ---------------------------------------------------------------------------

/// A walk that succeeds has come to the end of the message: nothing of it is left
/// unread.
pub proof fn walk_comes_to_the_end(
    buf: Seq<u8>,
    st: WalkState,
    end: int,
    depth: int,
    config: ValidationConfig,
)
    requires
        0 <= st.offset,
        protobuf::walk(buf, st, end, depth, config).0 is Ok,
    ensures
        end <= protobuf::walk(buf, st, end, depth, config).1.offset,
        depth <= config.max_recursion_depth,
{
    fields_come_to_the_end(buf, st, end, depth, config);
}

proof fn fields_come_to_the_end(
    buf: Seq<u8>,
    st: WalkState,
    end: int,
    depth: int,
    config: ValidationConfig,
)
    requires
        0 <= st.offset,
        protobuf::walk_fields(buf, st, end, depth, config).0 is Ok,
    ensures
        end <= protobuf::walk_fields(buf, st, end, depth, config).1.offset,
    decreases protobuf::left(st.offset, end),
{
    let max = config.max_varint_bytes as int;
    if st.offset < end {
        protobuf::varint_bounds(buf, st.offset, max);
        let (tag, at) = protobuf::varint(buf, st.offset, max);
        let here = WalkState { offset: at, ..st };
        let wire_type = protobuf::tag_wire_type(tag->Ok_0);
        protobuf::varint_bounds(buf, at, max);
        protobuf::skipped_bounds(buf, at, wire_type, max);
        if protobuf::tag_field(tag->Ok_0) == config.shape_field_number {
            protobuf::shape_field_forward(buf, here, end, wire_type, max);
            let next = protobuf::read_shape_field(buf, here, end, wire_type, max).1;
            fields_come_to_the_end(buf, next, end, depth, config);
        } else if wire_type == 2 {
            let (stop, next) = protobuf::delimited(buf, at, end, max);
            let inside = WalkState { offset: next, ..st };
            let (r, sub) = protobuf::walk(buf, inside, stop->Ok_0, depth + 1, config);
            if r is Ok {
                let behind = WalkState { offset: stop->Ok_0, ..sub };
                fields_come_to_the_end(buf, behind, end, depth, config);
            } else {
                let behind = WalkState { offset: stop->Ok_0, ..st };
                fields_come_to_the_end(buf, behind, end, depth, config);
            }
        } else {
            let next = protobuf::skipped(buf, at, wire_type, max).1;
            let behind = WalkState { offset: next, ..st };
            fields_come_to_the_end(buf, behind, end, depth, config);
        }
    }
}

/// The walk of two runs of fields, of which the first ends at `mid` and is valid, is
/// the walk of the second from where the first one leaves.
pub proof fn walk_goes_on(
    buf: Seq<u8>,
    st: WalkState,
    mid: int,
    end: int,
    depth: int,
    config: ValidationConfig,
)
    requires
        0 <= st.offset,
        mid <= end,
        protobuf::walk(buf, st, mid, depth, config).0 is Ok,
    ensures
        protobuf::walk(buf, st, end, depth, config) == protobuf::walk(
            buf,
            protobuf::walk(buf, st, mid, depth, config).1,
            end,
            depth,
            config,
        ),
{
    fields_go_on(buf, st, mid, end, depth, config);
}

proof fn fields_go_on(
    buf: Seq<u8>,
    st: WalkState,
    mid: int,
    end: int,
    depth: int,
    config: ValidationConfig,
)
    requires
        0 <= st.offset,
        mid <= end,
        protobuf::walk_fields(buf, st, mid, depth, config).0 is Ok,
    ensures
        st.offset <= protobuf::walk_fields(buf, st, mid, depth, config).1.offset,
        protobuf::walk_fields(buf, st, end, depth, config) == protobuf::walk_fields(
            buf,
            protobuf::walk_fields(buf, st, mid, depth, config).1,
            end,
            depth,
            config,
        ),
    decreases protobuf::left(st.offset, mid),
{
    let max = config.max_varint_bytes as int;
    if st.offset < mid {
        protobuf::varint_bounds(buf, st.offset, max);
        let (tag, at) = protobuf::varint(buf, st.offset, max);
        let here = WalkState { offset: at, ..st };
        let wire_type = protobuf::tag_wire_type(tag->Ok_0);
        protobuf::varint_bounds(buf, at, max);
        protobuf::skipped_bounds(buf, at, wire_type, max);
        if protobuf::tag_field(tag->Ok_0) == config.shape_field_number {
            protobuf::shape_field_forward(buf, here, mid, wire_type, max);
            let next = protobuf::read_shape_field(buf, here, mid, wire_type, max).1;
            assert(protobuf::read_shape_field(buf, here, end, wire_type, max)
                == protobuf::read_shape_field(buf, here, mid, wire_type, max));
            fields_go_on(buf, next, mid, end, depth, config);
        } else if wire_type == 2 {
            let (stop, next) = protobuf::delimited(buf, at, mid, max);
            let inside = WalkState { offset: next, ..st };
            let (r, sub) = protobuf::walk(buf, inside, stop->Ok_0, depth + 1, config);
            assert(protobuf::delimited(buf, at, end, max) == protobuf::delimited(
                buf,
                at,
                mid,
                max,
            ));
            if r is Ok {
                let behind = WalkState { offset: stop->Ok_0, ..sub };
                fields_go_on(buf, behind, mid, end, depth, config);
            } else {
                let behind = WalkState { offset: stop->Ok_0, ..st };
                fields_go_on(buf, behind, mid, end, depth, config);
            }
        } else {
            let next = protobuf::skipped(buf, at, wire_type, max).1;
            let behind = WalkState { offset: next, ..st };
            fields_go_on(buf, behind, mid, end, depth, config);
        }
    }
}

/// A walk that has collected `dims` on top of what it had.
pub open spec fn with_dims(st: WalkState, dims: Seq<u64>, offset: int) -> WalkState {
    WalkState {
        offset,
        shape: Seq::new(
            16,
            |i: int|
                if st.shape_len <= i < st.shape_len + dims.len() {
                    dims[i - st.shape_len] as i64
                } else {
                    st.shape[i]
                },
        ),
        shape_len: st.shape_len + dims.len(),
    }
}

proof fn with_no_dims(st: WalkState, offset: int)
    requires
        st.shape.len() == 16,
    ensures
        with_dims(st, Seq::empty(), offset) == (WalkState { offset, ..st }),
{
    assert(with_dims(st, Seq::empty(), offset).shape =~= st.shape);
}

proof fn with_more_dims(st: WalkState, a: Seq<u64>, b: Seq<u64>, mid: int, offset: int)
    ensures
        with_dims(with_dims(st, a, mid), b, offset) == with_dims(st, a + b, offset),
{
    assert(with_dims(with_dims(st, a, mid), b, offset).shape =~= with_dims(
        st,
        a + b,
        offset,
    ).shape);
}

/// A tag that was written is read back.
pub proof fn tag_round_trip(buf: Seq<u8>, at: int, field: u32, wire_type: int, max: int)
    requires
        stands_at(buf, at, tag_bytes(field, wire_type)),
        0 <= wire_type < 8,
        tag_bytes(field, wire_type).len() <= max,
    ensures
        protobuf::varint(buf, at, max) == (
            Ok::<u64, ProtoError>((field * 8 + wire_type) as u64),
            at + tag_bytes(field, wire_type).len(),
        ),
        protobuf::tag_field((field * 8 + wire_type) as u64) == field,
        protobuf::tag_wire_type((field * 8 + wire_type) as u64) == wire_type,
        1 <= tag_bytes(field, wire_type).len(),
{
    varint_round_trip(buf, at, (field * 8 + wire_type) as nat, max);
}

/// A dimension that was written is taken up.
proof fn dim_is_read(buf: Seq<u8>, st: WalkState, dim: u64, max: int)
    requires
        stands_at(buf, st.offset, varint_bytes(dim as nat)),
        0 < dim < 0x8000_0000_0000_0000,
        varint_bytes(dim as nat).len() <= max,
        st.shape.len() == 16,
        0 <= st.shape_len < 16,
    ensures
        protobuf::read_dim(buf, st, max) == (
            Ok::<(), ProtoError>(()),
            with_dims(st, seq![dim], st.offset + varint_bytes(dim as nat).len()),
        ),
        varint_bytes(dim as nat).len() >= 1,
{
    varint_round_trip(buf, st.offset, dim as nat, max);
    let offset = st.offset + varint_bytes(dim as nat).len();
    assert(with_dims(st, seq![dim], offset).shape =~= st.shape.update(st.shape_len, dim as i64));
}

/// Dimensions in a row are taken up one after the other.
proof fn row_is_read(buf: Seq<u8>, st: WalkState, values: Seq<u64>, stop: int, max: int)
    requires
        stands_at(buf, st.offset, numbers_bytes(values)),
        stop == st.offset + numbers_bytes(values).len(),
        forall|i: int| 0 <= i < values.len() ==> 0 < #[trigger] values[i] < 0x8000_0000_0000_0000,
        forall|i: int|
            0 <= i < values.len() ==> varint_bytes(#[trigger] values[i] as nat).len() <= max,
        st.shape.len() == 16,
        0 <= st.shape_len,
        st.shape_len + values.len() <= 16,
        0 <= max,
    ensures
        protobuf::read_packed(buf, st, stop, max) == (
            Ok::<(), ProtoError>(()),
            with_dims(st, values, stop),
        ),
    decreases values.len(),
{
    if values.len() == 0 {
        with_no_dims(st, stop);
        assert(values =~= Seq::<u64>::empty());
    } else {
        let first = varint_bytes(values[0] as nat);
        let rest = values.skip(1);
        stands_in_pieces(buf, st.offset, first, numbers_bytes(rest));
        dim_is_read(buf, st, values[0], max);
        let next = with_dims(st, seq![values[0]], st.offset + first.len());
        assert(forall|i: int| 0 <= i < rest.len() ==> rest[i] == values[i + 1]);
        row_is_read(buf, next, rest, stop, max);
        with_more_dims(st, seq![values[0]], rest, next.offset, stop);
        assert(seq![values[0]] + rest =~= values);
    }
}

/// What the walk of a message reads where a text begins that no message could be.
proof fn no_field_is_refused(
    buf: Seq<u8>,
    st: WalkState,
    end: int,
    depth: int,
    config: ValidationConfig,
)
    requires
        0 <= st.offset < buf.len(),
        st.offset < end,
        is_no_field(buf.skip(st.offset)),
        config.max_varint_bytes >= 1,
    ensures
        protobuf::walk_fields(buf, st, end, depth, config).0 == Err::<(), _>(
            ProtoError::InvalidWireType,
        ),
{
    assert(buf.skip(st.offset)[0] == buf[st.offset]);
    protobuf::single_byte_varint(buf, st.offset, config.max_varint_bytes as int);
}

/// The walk of a message that was written collects exactly the numbers that were
/// written into its shape fields and into those of the messages nested in it, in the
/// order in which they were written, and ends where the message does. What texts hold
/// does not count.
pub proof fn written_message_is_walked(
    buf: Seq<u8>,
    st: WalkState,
    m: Message,
    depth: int,
    config: ValidationConfig,
)
    requires
        stands_at(buf, st.offset, encoded(m)),
        buf.len() < 0x8000_0000_0000_0000,
        sound(m, set![config.shape_field_number]),
        narrow(m, config.max_varint_bytes as int),
        depth + height(m) <= config.max_recursion_depth,
        st.shape.len() == 16,
        0 <= st.shape_len,
        st.shape_len + dims_met(m, set![config.shape_field_number]) <= 16,
    ensures
        protobuf::walk(buf, st, st.offset + encoded(m).len(), depth, config) == (
            Ok::<(), ProtoError>(()),
            with_dims(
                st,
                all_dims(m, set![config.shape_field_number]),
                st.offset + encoded(m).len(),
            ),
        ),
{
    height_not_negative(m);
    written_fields_are_walked(buf, st, m, st.offset + encoded(m).len(), depth, config);
}

/// No message has less than no nested levels.
pub proof fn height_not_negative(m: Message)
    ensures
        0 <= height(m),
    decreases m,
{
    match m {
        Message::End => {},
        Message::Number { rest, .. } => height_not_negative(*rest),
        Message::Fixed { rest, .. } => height_not_negative(*rest),
        Message::Numbers { rest, .. } => height_not_negative(*rest),
        Message::Nested { rest, .. } => height_not_negative(*rest),
        Message::Text { rest, .. } => height_not_negative(*rest),
    }
}

proof fn written_fields_are_walked(
    buf: Seq<u8>,
    st: WalkState,
    m: Message,
    end: int,
    depth: int,
    config: ValidationConfig,
)
    requires
        stands_at(buf, st.offset, encoded(m)),
        end == st.offset + encoded(m).len(),
        buf.len() < 0x8000_0000_0000_0000,
        sound(m, set![config.shape_field_number]),
        narrow(m, config.max_varint_bytes as int),
        depth + height(m) <= config.max_recursion_depth,
        st.shape.len() == 16,
        0 <= st.shape_len,
        st.shape_len + dims_met(m, set![config.shape_field_number]) <= 16,
    ensures
        protobuf::walk_fields(buf, st, end, depth, config) == (
            Ok::<(), ProtoError>(()),
            with_dims(st, all_dims(m, set![config.shape_field_number]), end),
        ),
        all_dims(m, set![config.shape_field_number]).len() <= dims_met(
            m,
            set![config.shape_field_number],
        ),
    decreases m,
{
    let max = config.max_varint_bytes as int;
    let shapes = set![config.shape_field_number];
    let at = st.offset;
    match m {
        Message::End => {
            with_no_dims(st, end);
        },
        Message::Number { field, value, rest } => {
            let next = number_is_passed(buf, st, field, value, encoded(*rest), end, depth, config);
            written_fields_are_walked(buf, next, *rest, end, depth, config);
            if shapes.contains(field) {
                with_more_dims(st, seq![value], all_dims(*rest, shapes), next.offset, end);
            } else {
                dims_wherever(st, next, all_dims(*rest, shapes), end);
            }
        },
        Message::Fixed { field, bytes, rest } => {
            let next = fixed_is_passed(buf, st, field, bytes, encoded(*rest), end, depth, config);
            written_fields_are_walked(buf, next, *rest, end, depth, config);
            dims_wherever(st, next, all_dims(*rest, shapes), end);
        },
        Message::Numbers { field, values, rest } => {
            let next = row_is_passed(buf, st, field, values, encoded(*rest), end, depth, config);
            written_fields_are_walked(buf, next, *rest, end, depth, config);
            with_more_dims(st, values, all_dims(*rest, shapes), next.offset, end);
        },
        Message::Nested { field, content, rest } => {
            let inner = encoded(*content);
            let (start, stop) = delimited_is_read(buf, at, field, inner, encoded(*rest), max);
            let inside = WalkState { offset: start, ..st };
            let dims = all_dims(*content, shapes);
            let next = with_dims(st, dims, stop);
            stands_in_pieces(buf, start, inner, encoded(*rest));
            height_not_negative(*content);
            written_fields_are_walked(buf, inside, *content, stop, depth + 1, config);
            dims_wherever(st, inside, dims, stop);
            content_is_passed(buf, st, field, inner, encoded(*rest), end, depth, config);
            written_fields_are_walked(buf, next, *rest, end, depth, config);
            with_more_dims(st, dims, all_dims(*rest, shapes), stop, end);
        },
        Message::Text { field, start: opening, tail, rest } => {
            let inner = encoded(*opening) + tail;
            let (start, stop) = delimited_is_read(buf, at, field, inner, encoded(*rest), max);
            let inside = WalkState { offset: start, ..st };
            let next = WalkState { offset: stop, ..st };
            let mid = start + encoded(*opening).len();
            stands_in_pieces(buf, start, inner, encoded(*rest));
            stands_in_pieces(buf, start, encoded(*opening), tail);
            height_not_negative(*opening);
            written_fields_are_walked(buf, inside, *opening, mid, depth + 1, config);
            text_is_refused(
                buf,
                inside,
                with_dims(inside, all_dims(*opening, shapes), mid),
                tail,
                stop,
                depth + 1,
                config,
            );
            content_is_passed(buf, st, field, inner, encoded(*rest), end, depth, config);
            written_fields_are_walked(buf, next, *rest, end, depth, config);
            dims_wherever(st, next, all_dims(*rest, shapes), end);
        },
    }
}

/// Where the walk stands does not matter for what it has collected.
proof fn dims_wherever(a: WalkState, b: WalkState, dims: Seq<u64>, offset: int)
    requires
        a.shape == b.shape,
        a.shape_len == b.shape_len,
    ensures
        with_dims(a, dims, offset) == with_dims(b, dims, offset),
{
    assert(with_dims(a, dims, offset).shape =~= with_dims(b, dims, offset).shape);
}

proof fn number_is_passed(
    buf: Seq<u8>,
    st: WalkState,
    field: u32,
    value: u64,
    rest: Seq<u8>,
    end: int,
    depth: int,
    config: ValidationConfig,
) -> (next: WalkState)
    requires
        stands_at(buf, st.offset, tag_bytes(field, 0) + (varint_bytes(value as nat) + rest)),
        end == st.offset + (tag_bytes(field, 0) + (varint_bytes(value as nat) + rest)).len(),
        value < 0x8000_0000_0000_0000,
        field == config.shape_field_number ==> value > 0 && 0 <= st.shape_len < 16,
        tag_bytes(field, 0).len() <= config.max_varint_bytes,
        varint_bytes(value as nat).len() <= config.max_varint_bytes,
        st.shape.len() == 16,
    ensures
        stands_at(buf, next.offset, rest),
        end == next.offset + rest.len(),
        next == if field == config.shape_field_number {
            with_dims(st, seq![value], next.offset)
        } else {
            WalkState { offset: next.offset, ..st }
        },
        protobuf::walk_fields(buf, st, end, depth, config) == protobuf::walk_fields(
            buf,
            next,
            end,
            depth,
            config,
        ),
{
    let max = config.max_varint_bytes as int;
    let tag = tag_bytes(field, 0);
    let number = varint_bytes(value as nat);
    let at = st.offset;
    stands_in_pieces(buf, at, tag, number + rest);
    stands_in_pieces(buf, at + tag.len(), number, rest);
    tag_round_trip(buf, at, field, 0, max);
    varint_round_trip(buf, at + tag.len(), value as nat, max);
    let here = WalkState { offset: at + tag.len(), ..st };
    let behind = at + tag.len() + number.len();
    if field == config.shape_field_number {
        dim_is_read(buf, here, value, max);
        dims_wherever(st, here, seq![value], behind);
        with_dims(st, seq![value], behind)
    } else {
        WalkState { offset: behind, ..st }
    }
}

proof fn fixed_is_passed(
    buf: Seq<u8>,
    st: WalkState,
    field: u32,
    bytes: Seq<u8>,
    rest: Seq<u8>,
    end: int,
    depth: int,
    config: ValidationConfig,
) -> (next: WalkState)
    requires
        stands_at(buf, st.offset, tag_bytes(field, fixed_type(bytes)) + (bytes + rest)),
        end == st.offset + (tag_bytes(field, fixed_type(bytes)) + (bytes + rest)).len(),
        field != config.shape_field_number,
        bytes.len() == 4 || bytes.len() == 8,
        tag_bytes(field, fixed_type(bytes)).len() <= config.max_varint_bytes,
    ensures
        stands_at(buf, next.offset, rest),
        end == next.offset + rest.len(),
        next == (WalkState { offset: next.offset, ..st }),
        protobuf::walk_fields(buf, st, end, depth, config) == protobuf::walk_fields(
            buf,
            next,
            end,
            depth,
            config,
        ),
{
    let max = config.max_varint_bytes as int;
    let tag = tag_bytes(field, fixed_type(bytes));
    let at = st.offset;
    stands_in_pieces(buf, at, tag, bytes + rest);
    stands_in_pieces(buf, at + tag.len(), bytes, rest);
    tag_round_trip(buf, at, field, fixed_type(bytes), max);
    WalkState { offset: at + tag.len() + bytes.len(), ..st }
}

proof fn row_is_passed(
    buf: Seq<u8>,
    st: WalkState,
    field: u32,
    values: Seq<u64>,
    rest: Seq<u8>,
    end: int,
    depth: int,
    config: ValidationConfig,
) -> (next: WalkState)
    requires
        stands_at(
            buf,
            st.offset,
            tag_bytes(field, 2) + (varint_bytes(numbers_bytes(values).len()) + (numbers_bytes(
                values,
            ) + rest)),
        ),
        end == st.offset + (tag_bytes(field, 2) + (varint_bytes(numbers_bytes(values).len()) + (
        numbers_bytes(values) + rest))).len(),
        buf.len() < 0x8000_0000_0000_0000,
        field == config.shape_field_number,
        tag_bytes(field, 2).len() <= config.max_varint_bytes,
        varint_bytes(numbers_bytes(values).len()).len() <= config.max_varint_bytes,
        forall|i: int| 0 <= i < values.len() ==> 0 < #[trigger] values[i] < 0x8000_0000_0000_0000,
        forall|i: int|
            0 <= i < values.len() ==> varint_bytes(#[trigger] values[i] as nat).len()
                <= config.max_varint_bytes,
        st.shape.len() == 16,
        0 <= st.shape_len,
        st.shape_len + values.len() <= 16,
    ensures
        stands_at(buf, next.offset, rest),
        end == next.offset + rest.len(),
        next == with_dims(st, values, next.offset),
        protobuf::walk_fields(buf, st, end, depth, config) == protobuf::walk_fields(
            buf,
            next,
            end,
            depth,
            config,
        ),
{
    let max = config.max_varint_bytes as int;
    let row = numbers_bytes(values);
    let (start, stop) = delimited_is_read(buf, st.offset, field, row, rest, max);
    let here = WalkState { offset: start, ..st };
    stands_in_pieces(buf, start, row, rest);
    row_is_read(buf, here, values, stop, max);
    dims_wherever(st, here, values, stop);
    with_dims(st, values, stop)
}

/// A walk that meets a text has no message there.
proof fn text_is_refused(
    buf: Seq<u8>,
    st: WalkState,
    there: WalkState,
    tail: Seq<u8>,
    stop: int,
    depth: int,
    config: ValidationConfig,
)
    requires
        0 <= st.offset,
        protobuf::walk_fields(buf, st, there.offset, depth, config) == (
            Ok::<(), ProtoError>(()),
            there,
        ),
        stands_at(buf, there.offset, tail),
        stop == there.offset + tail.len(),
        is_no_field(tail),
        config.max_varint_bytes >= 1,
    ensures
        protobuf::walk_fields(buf, st, stop, depth, config).0 == Err::<(), _>(
            ProtoError::InvalidWireType,
        ),
{
    let mid = there.offset;
    fields_go_on(buf, st, mid, stop, depth, config);
    assert(buf.skip(mid)[0] == buf.subrange(mid, mid + tail.len())[0]);
    no_field_is_refused(buf, there, stop, depth, config);
}

/// The walk goes on behind a length-delimited field: with what was collected inside
/// where that is a message, otherwise with what it had before.
pub proof fn content_is_passed(
    buf: Seq<u8>,
    st: WalkState,
    field: u32,
    content: Seq<u8>,
    rest: Seq<u8>,
    end: int,
    depth: int,
    config: ValidationConfig,
)
    requires
        stands_at(
            buf,
            st.offset,
            tag_bytes(field, 2) + (varint_bytes(content.len()) + (content + rest)),
        ),
        end == st.offset + (tag_bytes(field, 2) + (varint_bytes(content.len()) + (content
            + rest))).len(),
        buf.len() < 0x8000_0000_0000_0000,
        field != config.shape_field_number,
        tag_bytes(field, 2).len() <= config.max_varint_bytes,
        varint_bytes(content.len()).len() <= config.max_varint_bytes,
        depth < config.max_recursion_depth,
        ({
            let start = st.offset + tag_bytes(field, 2).len() + varint_bytes(content.len()).len();
            protobuf::walk_fields(
                buf,
                WalkState { offset: start, ..st },
                start + content.len(),
                depth + 1,
                config,
            ).0 != Err::<(), _>(ProtoError::RecursionLimit)
        }),
    ensures
        ({
            let start = st.offset + tag_bytes(field, 2).len() + varint_bytes(content.len()).len();
            let stop = start + content.len();
            let (r, sub) = protobuf::walk_fields(
                buf,
                WalkState { offset: start, ..st },
                stop,
                depth + 1,
                config,
            );
            &&& stands_at(buf, stop, rest)
            &&& end == stop + rest.len()
            &&& protobuf::walk_fields(buf, st, end, depth, config) == protobuf::walk_fields(
                buf,
                if r is Ok {
                    WalkState { offset: stop, ..sub }
                } else {
                    WalkState { offset: stop, ..st }
                },
                end,
                depth,
                config,
            )
        }),
{
    let max = config.max_varint_bytes as int;
    let (start, stop) = delimited_is_read(buf, st.offset, field, content, rest, max);
    stands_in_pieces(buf, start, content, rest);
    let inside = WalkState { offset: start, ..st };
    assert(protobuf::walk(buf, inside, stop, depth + 1, config) == protobuf::walk_fields(
        buf,
        inside,
        stop,
        depth + 1,
        config,
    ));
    assert(protobuf::delimited(buf, st.offset + tag_bytes(field, 2).len(), end, max) == (
        Ok::<int, ProtoError>(stop),
        start,
    ));
}

/// The tag and the length of a length-delimited field that was written are read back:
/// where its content starts and where it stops.
pub proof fn delimited_is_read(
    buf: Seq<u8>,
    at: int,
    field: u32,
    content: Seq<u8>,
    rest: Seq<u8>,
    max: int,
) -> (r: (int, int))
    requires
        stands_at(
            buf,
            at,
            tag_bytes(field, 2) + (varint_bytes(content.len()) + (content + rest)),
        ),
        buf.len() < 0x8000_0000_0000_0000,
        tag_bytes(field, 2).len() <= max,
        varint_bytes(content.len()).len() <= max,
    ensures
        stands_at(buf, r.0, content + rest),
        r.1 == r.0 + content.len(),
        at < r.0,
        r.1 <= buf.len(),
        r.0 == at + tag_bytes(field, 2).len() + varint_bytes(content.len()).len(),
        protobuf::varint(buf, at, max) == (
            Ok::<u64, ProtoError>((field * 8 + 2) as u64),
            at + tag_bytes(field, 2).len(),
        ),
        protobuf::tag_field((field * 8 + 2) as u64) == field,
        protobuf::tag_wire_type((field * 8 + 2) as u64) == 2,
        forall|end: int|
            r.1 <= end ==> #[trigger] protobuf::delimited(
                buf,
                at + tag_bytes(field, 2).len(),
                end,
                max,
            ) == (Ok::<int, ProtoError>(r.1), r.0),
{
    let tag = tag_bytes(field, 2);
    let len = varint_bytes(content.len());
    stands_in_pieces(buf, at, tag, len + (content + rest));
    stands_in_pieces(buf, at + tag.len(), len, content + rest);
    tag_round_trip(buf, at, field, 2, max);
    varint_round_trip(buf, at + tag.len(), content.len(), max);
    let start = at + tag.len() + len.len();
    (start, start + content.len())
}

/// A field that cannot be read ends the walk, and the error says why: a wire type that
/// no field has, a shape that is no number, a content that goes beyond the end of the
/// message, a dimension that is zero or one too many, a message nested too deep.
pub proof fn flawed_field_ends_the_walk(
    buf: Seq<u8>,
    st: WalkState,
    end: int,
    depth: int,
    config: ValidationConfig,
    field: u32,
    wire_type: int,
)
    requires
        stands_at(buf, st.offset, tag_bytes(field, wire_type)),
        0 <= wire_type < 8,
        tag_bytes(field, wire_type).len() <= config.max_varint_bytes,
        st.offset < end,
        depth <= config.max_recursion_depth,
    ensures
        ({
            let r = protobuf::walk(buf, st, end, depth, config).0;
            let at = st.offset + tag_bytes(field, wire_type).len();
            let max = config.max_varint_bytes as int;
            let is_shape = field == config.shape_field_number;
            &&& wire_type == 3 || wire_type == 4 || wire_type == 6 || wire_type == 7 ==> r
                == Err::<(), _>(ProtoError::InvalidWireType)
            &&& is_shape && wire_type != 0 && wire_type != 2 ==> r == Err::<(), _>(
                ProtoError::InvalidWireType,
            )
            &&& !is_shape && wire_type == 1 && buf.len() < at + 8 ==> r == Err::<(), _>(
                ProtoError::BufferUnderflow,
            )
            &&& !is_shape && wire_type == 5 && buf.len() < at + 4 ==> r == Err::<(), _>(
                ProtoError::BufferUnderflow,
            )
            &&& wire_type == 2 ==> forall|len: nat|
                (#[trigger] stands_at(buf, at, varint_bytes(len)) && varint_bytes(len).len() <= max
                    && len < 0x8000_0000_0000_0000) ==> {
                    &&& at + varint_bytes(len).len() + len > end ==> r == Err::<(), _>(
                        ProtoError::BufferUnderflow,
                    )
                    &&& at + varint_bytes(len).len() + len <= end && !is_shape && depth
                        == config.max_recursion_depth ==> r == Err::<(), _>(
                        ProtoError::RecursionLimit,
                    )
                }
            &&& is_shape && wire_type == 0 ==> forall|n: nat|
                (#[trigger] stands_at(buf, at, varint_bytes(n)) && varint_bytes(n).len() <= max && n
                    < 0x8000_0000_0000_0000) ==> {
                    &&& st.shape_len >= 16 ==> r == Err::<(), _>(ProtoError::ShapeDimensionLimit)
                    &&& st.shape_len < 16 && n == 0 ==> r == Err::<(), _>(
                        ProtoError::ShapeValueInvalid,
                    )
                }
            &&& wire_type == 0 || wire_type == 2 ==> {
                &&& (buf.len() - at <= max && buf.len() - at <= 9 && forall|i: int|
                    at <= i < buf.len() ==> 0x80 <= #[trigger] buf[i]) ==> r == Err::<(), _>(
                    ProtoError::BufferUnderflow,
                )
                &&& (max < 9 && at + 9 < buf.len() && forall|i: int|
                    at <= i < at + max ==> 0x80 <= #[trigger] buf[i]) ==> r == Err::<(), _>(
                    ProtoError::InvalidVarintBytes,
                )
                &&& (max >= 9 && at + max < buf.len() && forall|i: int|
                    at <= i < at + 9 ==> 0x80 <= #[trigger] buf[i]) ==> r == Err::<(), _>(
                    ProtoError::InvalidVarint,
                )
            }
        }),
{
    let at = st.offset + tag_bytes(field, wire_type).len();
    let max = config.max_varint_bytes as int;
    let r = protobuf::walk(buf, st, end, depth, config).0;
    tag_round_trip(buf, st.offset, field, wire_type, max);
    assert(protobuf::walk(buf, st, end, depth, config) == protobuf::walk_fields(
        buf,
        st,
        end,
        depth,
        config,
    ));
    if wire_type == 2 {
        assert forall|len: nat|
            (#[trigger] stands_at(buf, at, varint_bytes(len)) && varint_bytes(len).len() <= max
                && len < 0x8000_0000_0000_0000) implies {
            &&& at + varint_bytes(len).len() + len > end ==> r == Err::<(), _>(
                ProtoError::BufferUnderflow,
            )
            &&& at + varint_bytes(len).len() + len <= end && field != config.shape_field_number
                && depth == config.max_recursion_depth ==> r == Err::<(), _>(
                ProtoError::RecursionLimit,
            )
        } by {
            varint_round_trip(buf, at, len, max);
            let start = at + varint_bytes(len).len();
            let inside = WalkState { offset: start, ..st };
            if depth == config.max_recursion_depth {
                assert(protobuf::walk(buf, inside, start + len, depth + 1, config).0 == Err::<
                    (),
                    _,
                >(ProtoError::RecursionLimit));
            }
        }
    }
    if wire_type == 0 && field == config.shape_field_number {
        assert forall|n: nat|
            (#[trigger] stands_at(buf, at, varint_bytes(n)) && varint_bytes(n).len() <= max && n
                < 0x8000_0000_0000_0000) implies {
            &&& st.shape_len >= 16 ==> r == Err::<(), _>(ProtoError::ShapeDimensionLimit)
            &&& st.shape_len < 16 && n == 0 ==> r == Err::<(), _>(ProtoError::ShapeValueInvalid)
        } by {
            varint_round_trip(buf, at, n, max);
        }
    }
    if wire_type == 0 || wire_type == 2 {
        if buf.len() - at <= max && buf.len() - at <= 9 && forall|i: int|
            at <= i < buf.len() ==> 0x80 <= #[trigger] buf[i] {
            cut_varint_is_refused(buf, at, max);
        }
        if max < 9 && at + 9 < buf.len() && forall|i: int|
            at <= i < at + max ==> 0x80 <= #[trigger] buf[i] {
            wide_varint_is_refused(buf, at, max);
        }
        if max >= 9 && at + max < buf.len() && forall|i: int|
            at <= i < at + 9 ==> 0x80 <= #[trigger] buf[i] {
            wide_varint_is_refused(buf, at, max);
        }
    }
}

/// Dimensions in a row are taken up until one is zero or one too many.
proof fn bad_row_is_refused(
    buf: Seq<u8>,
    st: WalkState,
    good: Seq<u64>,
    bad: u64,
    stop: int,
    max: int,
)
    requires
        stands_at(buf, st.offset, numbers_bytes(good) + varint_bytes(bad as nat)),
        st.offset + numbers_bytes(good).len() < stop,
        forall|i: int| 0 <= i < good.len() ==> 0 < #[trigger] good[i] < 0x8000_0000_0000_0000,
        forall|i: int|
            0 <= i < good.len() ==> varint_bytes(#[trigger] good[i] as nat).len() <= max,
        bad < 0x8000_0000_0000_0000,
        varint_bytes(bad as nat).len() <= max,
        st.shape.len() == 16,
        0 <= st.shape_len,
        st.shape_len + good.len() <= 16,
        bad == 0 || st.shape_len + good.len() == 16,
        0 <= max,
    ensures
        protobuf::read_packed(buf, st, stop, max).0 == Err::<(), _>(
            if st.shape_len + good.len() == 16 {
                ProtoError::ShapeDimensionLimit
            } else {
                ProtoError::ShapeValueInvalid
            },
        ),
    decreases good.len(),
{
    if good.len() == 0 {
        assert(numbers_bytes(good) + varint_bytes(bad as nat) =~= varint_bytes(bad as nat));
        varint_round_trip(buf, st.offset, bad as nat, max);
    } else {
        let first = varint_bytes(good[0] as nat);
        let rest = good.skip(1);
        let behind = numbers_bytes(rest) + varint_bytes(bad as nat);
        assert(numbers_bytes(good) + varint_bytes(bad as nat) =~= first + behind);
        stands_in_pieces(buf, st.offset, first, behind);
        dim_is_read(buf, st, good[0], max);
        let next = with_dims(st, seq![good[0]], st.offset + first.len());
        assert(forall|i: int| 0 <= i < rest.len() ==> rest[i] == good[i + 1]);
        bad_row_is_refused(buf, next, rest, bad, stop, max);
    }
}

/// A shape with a dimension that is zero, or with one more than there is room for, ends
/// the walk.
pub proof fn bad_shape_ends_the_walk(
    buf: Seq<u8>,
    st: WalkState,
    end: int,
    depth: int,
    config: ValidationConfig,
    good: Seq<u64>,
    bad: u64,
    rest: Seq<u8>,
)
    requires
        ({
            let row = numbers_bytes(good) + varint_bytes(bad as nat) + rest;
            let tag = tag_bytes(config.shape_field_number, 2);
            let len = varint_bytes(row.len());
            &&& stands_at(buf, st.offset, tag + (len + (row + Seq::empty())))
            &&& st.offset + tag.len() + len.len() + row.len() <= end
            &&& tag.len() <= config.max_varint_bytes
            &&& len.len() <= config.max_varint_bytes
        }),
        buf.len() < 0x8000_0000_0000_0000,
        depth <= config.max_recursion_depth,
        forall|i: int| 0 <= i < good.len() ==> 0 < #[trigger] good[i] < 0x8000_0000_0000_0000,
        forall|i: int|
            0 <= i < good.len() ==> varint_bytes(#[trigger] good[i] as nat).len()
                <= config.max_varint_bytes,
        bad < 0x8000_0000_0000_0000,
        varint_bytes(bad as nat).len() <= config.max_varint_bytes,
        st.shape.len() == 16,
        0 <= st.shape_len,
        st.shape_len + good.len() <= 16,
        bad == 0 || st.shape_len + good.len() == 16,
    ensures
        protobuf::walk(buf, st, end, depth, config).0 == Err::<(), _>(
            if st.shape_len + good.len() == 16 {
                ProtoError::ShapeDimensionLimit
            } else {
                ProtoError::ShapeValueInvalid
            },
        ),
{
    let max = config.max_varint_bytes as int;
    let start = numbers_bytes(good) + varint_bytes(bad as nat);
    let row = start + rest;
    let (at, stop) = delimited_is_read(
        buf,
        st.offset,
        config.shape_field_number,
        row,
        Seq::empty(),
        max,
    );
    let here = WalkState { offset: at, ..st };
    stands_in_pieces(buf, at, row, Seq::empty());
    stands_in_pieces(buf, at, start, rest);
    vstd::arithmetic::power2::lemma2_to64_rest();
    varint_bytes_len(bad as nat, 9);
    bad_row_is_refused(buf, here, good, bad, stop, max);
    assert(protobuf::walk(buf, st, end, depth, config) == protobuf::walk_fields(
        buf,
        st,
        end,
        depth,
        config,
    ));
}

// ---------------------------------------------------------------------------
// Packets
// ---------------------------------------------------------------------------

/// How many elements a tensor of these dimensions has.
pub open spec fn elements(dims: Seq<u64>) -> nat
    decreases dims.len(),
{
    if dims.len() == 0 {
        1
    } else {
        dims[0] as nat * elements(dims.skip(1))
    }
}

proof fn elements_push(dims: Seq<u64>, d: u64)
    ensures
        elements(dims.push(d)) == elements(dims) * d as nat,
    decreases dims.len(),
{
    let all = dims.push(d);
    if dims.len() == 0 {
        assert(all.skip(1) =~= Seq::<u64>::empty());
        assert(elements(all.skip(1)) == 1);
        assert(all[0] as nat * 1 == d as nat) by (nonlinear_arith)
            requires
                all[0] == d,
        ;
        assert(1 * d as nat == d as nat) by (nonlinear_arith);
    } else {
        elements_push(dims.skip(1), d);
        assert(all.skip(1) =~= dims.skip(1).push(d));
        let (a, b, c) = (dims[0] as nat, elements(dims.skip(1)), d as nat);
        assert(a * (b * c) == (a * b) * c) by (nonlinear_arith);
    }
}

/// The dimensions as the walk keeps them.
pub open spec fn signed(dims: Seq<u64>) -> Seq<i64> {
    dims.map_values(|d: u64| d as i64)
}

/// The number of elements is the product of the dimensions, whichever end it is
/// reckoned from.
pub proof fn elements_are_counted(dims: Seq<u64>)
    requires
        forall|i: int| 0 <= i < dims.len() ==> #[trigger] dims[i] < 0x8000_0000_0000_0000,
    ensures
        protobuf::element_count(signed(dims)) == elements(dims),
    decreases dims.len(),
{
    if dims.len() > 0 {
        let front = dims.drop_last();
        elements_are_counted(front);
        elements_push(front, dims.last());
        assert(front.push(dims.last()) =~= dims);
        assert(signed(dims).drop_last() =~= signed(front));
        assert(signed(dims).last() == dims.last() as i64);
    }
}

proof fn dims_are_sound(m: Message, shapes: Set<u32>)
    requires
        sound(m, shapes),
    ensures
        all_dims(m, shapes).len() <= dims_met(m, shapes),
        forall|i: int|
            0 <= i < all_dims(m, shapes).len() ==> 0 < #[trigger] all_dims(m, shapes)[i]
                < 0x8000_0000_0000_0000,
    decreases m,
{
    match m {
        Message::End => {},
        Message::Number { rest, .. } => dims_are_sound(*rest, shapes),
        Message::Fixed { rest, .. } => dims_are_sound(*rest, shapes),
        Message::Numbers { rest, .. } => dims_are_sound(*rest, shapes),
        Message::Nested { content, rest, .. } => {
            dims_are_sound(*content, shapes);
            dims_are_sound(*rest, shapes);
        },
        Message::Text { start, rest, .. } => {
            dims_are_sound(*start, shapes);
            dims_are_sound(*rest, shapes);
        },
    }
}

/// A packet that parses and whose frame holds a written message is judged by the
/// dimensions that were written into it: too many of them, or too many elements, and it
/// is refused; otherwise it is valid, and exactly those dimensions are reported.
pub proof fn written_packet_is_validated(buf: Seq<u8>, m: Message, config: ValidationConfig)
    requires
        grpc::parse_error(buf, config.target_port) is None,
        stands_at(buf, grpc::payload_offset(buf) + 14, encoded(m)),
        grpc::http2_payload_len(buf) == 5 + encoded(m).len(),
        buf.len() < 0x8000_0000_0000_0000,
        sound(m, set![config.shape_field_number]),
        narrow(m, config.max_varint_bytes as int),
        height(m) <= config.max_recursion_depth,
        dims_met(m, set![config.shape_field_number]) <= 16,
    ensures
        ({
            let dims = all_dims(m, set![config.shape_field_number]);
            let st = protobuf::payload_walk(buf, config).1;
            &&& st.shape_len == dims.len()
            &&& st.shape.take(st.shape_len) == signed(dims)
            &&& protobuf::validation_error(buf, config) == if dims.len() > config.max_dimensions {
                Some(ValidationError::Proto(ProtoError::ShapeDimensionLimit))
            } else if dims.len() > 0 && elements(dims) > config.max_tensor_elements {
                Some(ValidationError::Proto(ProtoError::TensorSizeLimit))
            } else {
                None::<ValidationError>
            }
        }),
{
    let shapes = set![config.shape_field_number];
    let dims = all_dims(m, shapes);
    let start = protobuf::payload_start(buf);
    dims_are_sound(m, shapes);
    written_message_is_walked(buf, start, m, 0, config);
    elements_are_counted(dims);
    let st = protobuf::payload_walk(buf, config).1;
    assert(st == with_dims(start, dims, start.offset + encoded(m).len()));
    assert(st.shape.take(st.shape_len) =~= signed(dims));
}

} // verus!
