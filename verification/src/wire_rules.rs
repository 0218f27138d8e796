//! What the policy engine makes of messages that were written.
use crate::engine;
use crate::engine::{
    BlockReason, Collected, MatchResult, PolicyState, RuleViolationReason, WalkError,
};
use crate::grpc;
use crate::policy::{DimensionBound, DynamicPolicy, ShapeRule};
use crate::protobuf;
use crate::protobuf::ProtoError;
use crate::wire;
use crate::wire::{
    encoded, fixed_type, height, is_no_field, narrow, numbers_bytes, signed, sound, stands_at,
    tag_bytes, varint_bytes, Message,
};
use vstd::prelude::*;

verus! {

// ---------------------------------------------------------------------------
// What a message holds at its top level
// ---------------------------------------------------------------------------

/// The numbers of the fields at the top level, in the order in which they are written.
pub open spec fn top_fields(m: Message) -> Seq<u32>
    decreases m,
{
    match m {
        Message::End => Seq::empty(),
        Message::Number { field, rest, .. } => seq![field] + top_fields(*rest),
        Message::Fixed { field, rest, .. } => seq![field] + top_fields(*rest),
        Message::Numbers { field, rest, .. } => seq![field] + top_fields(*rest),
        Message::Nested { field, rest, .. } => seq![field] + top_fields(*rest),
        Message::Text { field, rest, .. } => seq![field] + top_fields(*rest),
    }
}

/// The numbers that stand in `field` at the top level, in the order in which they are
/// written.
pub open spec fn top_values(m: Message, field: u32) -> Seq<u64>
    decreases m,
{
    match m {
        Message::End => Seq::empty(),
        Message::Number { field: f, value, rest } => if f == field {
            seq![value] + top_values(*rest, field)
        } else {
            top_values(*rest, field)
        },
        Message::Fixed { rest, .. } => top_values(*rest, field),
        Message::Numbers { field: f, values, rest } => if f == field {
            values + top_values(*rest, field)
        } else {
            top_values(*rest, field)
        },
        Message::Nested { rest, .. } => top_values(*rest, field),
        Message::Text { rest, .. } => top_values(*rest, field),
    }
}

/// A list with one more field, unless it is there already.
pub open spec fn noted(seen: Seq<u32>, field: u32) -> Seq<u32> {
    if seen.contains(field) {
        seen
    } else {
        seen.push(field)
    }
}

/// The fields of `shapes` at the top level, each once, in the order in which they are
/// first met, behind those that were seen before.
pub open spec fn met(m: Message, shapes: Set<u32>, seen: Seq<u32>) -> Seq<u32>
    decreases m,
{
    match m {
        Message::End => seen,
        Message::Number { field, rest, .. } => if shapes.contains(field) {
            met(*rest, shapes, noted(seen, field))
        } else {
            met(*rest, shapes, seen)
        },
        Message::Fixed { rest, .. } => met(*rest, shapes, seen),
        Message::Numbers { field, rest, .. } => met(*rest, shapes, noted(seen, field)),
        Message::Nested { rest, .. } => met(*rest, shapes, seen),
        Message::Text { rest, .. } => met(*rest, shapes, seen),
    }
}

// ---------------------------------------------------------------------------
// What was collected
// ---------------------------------------------------------------------------

/// The fields that something was collected for.
pub open spec fn fields_held(c: Seq<Collected>) -> Seq<u32> {
    Seq::new(c.len(), |i: int| c[i].field)
}

/// What was collected for a field; nothing where there is no entry.
pub open spec fn held(c: Seq<Collected>, field: u32) -> Seq<i64>
    decreases c.len(),
{
    if c.len() == 0 {
        Seq::empty()
    } else if c[0].field == field {
        c[0].dims
    } else {
        held(c.skip(1), field)
    }
}

/// No field has two entries.
pub open spec fn one_each(c: Seq<Collected>) -> bool {
    forall|i: int, j: int| 0 <= i < j < c.len() ==> c[i].field != c[j].field
}

proof fn held_at(c: Seq<Collected>, i: int)
    requires
        one_each(c),
        0 <= i < c.len(),
    ensures
        held(c, c[i].field) == c[i].dims,
    decreases c.len(),
{
    if i > 0 {
        assert(c[0].field != c[i].field);
        let rest = c.skip(1);
        assert(forall|j: int| 0 <= j < rest.len() ==> rest[j] == c[j + 1]);
        held_at(rest, i - 1);
    }
}

proof fn slot_finds(c: Seq<Collected>, field: u32)
    ensures
        0 <= engine::slot(c, field) <= c.len(),
        engine::slot(c, field) < c.len() ==> c[engine::slot(c, field)].field == field && held(
            c,
            field,
        ) == c[engine::slot(c, field)].dims,
        engine::slot(c, field) < c.len() <==> fields_held(c).contains(field),
        engine::slot(c, field) == c.len() ==> held(c, field) == Seq::<i64>::empty(),
    decreases c.len(),
{
    if c.len() > 0 {
        assert(fields_held(c)[0] == c[0].field);
        if c[0].field != field {
            let rest = c.skip(1);
            slot_finds(rest, field);
            assert(forall|i: int| 0 <= i < rest.len() ==> rest[i] == c[i + 1]);
            if fields_held(c).contains(field) {
                let i = choose|i: int|
                    0 <= i < fields_held(c).len() && fields_held(c)[i] == field;
                assert(fields_held(rest)[i - 1] == field);
            }
            if fields_held(rest).contains(field) {
                let i = choose|i: int|
                    0 <= i < fields_held(rest).len() && fields_held(rest)[i] == field;
                assert(fields_held(c)[i + 1] == field);
            }
        }
    }
}

/// `after` holds what `before` does, and `dims` behind what was there for `field`.
pub open spec fn took(
    before: Seq<Collected>,
    after: Seq<Collected>,
    field: u32,
    dims: Seq<i64>,
) -> bool {
    &&& fields_held(after) == noted(fields_held(before), field)
    &&& forall|i: int|
        0 <= i < after.len() ==> (#[trigger] after[i]).dims == held(before, after[i].field) + if
            after[i].field == field {
            dims
        } else {
            Seq::empty()
        }
}

/// `after` holds what `before` does, and behind that, for every field of `shapes` in the
/// message, the numbers that stand in it at the top level.
pub open spec fn grown(
    before: Seq<Collected>,
    after: Seq<Collected>,
    m: Message,
    shapes: Set<u32>,
) -> bool {
    &&& fields_held(after) == met(m, shapes, fields_held(before))
    &&& forall|i: int|
        0 <= i < after.len() ==> (#[trigger] after[i]).dims == held(before, after[i].field)
            + signed(top_values(m, after[i].field))
}

proof fn fields_agree(a: Seq<Collected>, list: Seq<u32>)
    requires
        fields_held(a) == list,
    ensures
        a.len() == list.len(),
        forall|i: int| 0 <= i < a.len() ==> (#[trigger] a[i]).field == list[i],
{
    assert(fields_held(a).len() == a.len());
    assert(forall|i: int| 0 <= i < a.len() ==> fields_held(a)[i] == (#[trigger] a[i]).field);
}

/// Taking something up keeps one entry a field.
proof fn took_one_each(before: Seq<Collected>, after: Seq<Collected>, field: u32, dims: Seq<i64>)
    requires
        one_each(before),
        took(before, after, field, dims),
    ensures
        one_each(after),
        forall|f: u32| #[trigger]
            held(after, f) == held(before, f) + if f == field {
                dims
            } else {
                Seq::empty()
            },
{
    let seen = fields_held(before);
    fields_agree(after, noted(seen, field));
    fields_agree(before, seen);
    assert forall|i: int, j: int| 0 <= i < j < after.len() implies after[i].field
        != after[j].field by {
        assert(seen.contains(seen[i])) by {
            assert(0 <= i < before.len());
        }
        if j < before.len() {
            assert(before[i].field != before[j].field);
        }
    }
    assert forall|f: u32| #[trigger] held(after, f) == held(before, f) + if f == field {
        dims
    } else {
        Seq::empty()
    } by {
        slot_finds(after, f);
        slot_finds(before, f);
        if engine::slot(after, f) == after.len() {
            assert(f != field) by {
                if f == field && !seen.contains(field) {
                    assert(fields_held(after)[after.len() - 1] == field);
                }
            }
            if engine::slot(before, f) < before.len() {
                let k = engine::slot(before, f);
                assert(fields_held(after)[k] == f);
            }
            assert(Seq::<i64>::empty() + Seq::<i64>::empty() =~= Seq::<i64>::empty());
        }
    }
}

/// A field is taken up, then the rest of the message.
proof fn grown_in_steps(
    before: Seq<Collected>,
    mid: Seq<Collected>,
    after: Seq<Collected>,
    field: u32,
    values: Seq<u64>,
    rest: Message,
    m: Message,
    shapes: Set<u32>,
)
    requires
        one_each(before),
        took(before, mid, field, signed(values)),
        grown(mid, after, rest, shapes),
        met(m, shapes, fields_held(before)) == met(
            rest,
            shapes,
            noted(fields_held(before), field),
        ),
        forall|f: u32| #[trigger]
            top_values(m, f) == if f == field {
                values + top_values(rest, f)
            } else {
                top_values(rest, f)
            },
    ensures
        grown(before, after, m, shapes),
{
    took_one_each(before, mid, field, signed(values));
    assert forall|i: int| 0 <= i < after.len() implies (#[trigger] after[i]).dims == held(
        before,
        after[i].field,
    ) + signed(top_values(m, after[i].field)) by {
        let f = after[i].field;
        assert(after[i].dims == held(mid, f) + signed(top_values(rest, f)));
        if f == field {
            assert(signed(values + top_values(rest, f)) =~= signed(values) + signed(
                top_values(rest, f),
            ));
            assert(held(before, f) + signed(values) + signed(top_values(rest, f)) =~= held(
                before,
                f,
            ) + (signed(values) + signed(top_values(rest, f))));
        } else {
            assert(held(before, f) + Seq::<i64>::empty() =~= held(before, f));
        }
    }
}

/// Dimensions in a row are added to the entry, one after the other.
proof fn row_is_collected(
    reach: Seq<u8>,
    st: PolicyState,
    values: Seq<u64>,
    stop: int,
    i: int,
    max: int,
)
    requires
        stands_at(reach, st.offset, numbers_bytes(values)),
        stop == st.offset + numbers_bytes(values).len(),
        forall|k: int| 0 <= k < values.len() ==> 0 < #[trigger] values[k] < 0x8000_0000_0000_0000,
        forall|k: int|
            0 <= k < values.len() ==> varint_bytes(#[trigger] values[k] as nat).len() <= max,
        0 <= i < st.collected.len(),
        st.collected[i].dims.len() + values.len() <= 16,
        0 <= max,
    ensures
        engine::collect_packed(reach, st, stop, i, max) == (
            Ok::<(), WalkError>(()),
            PolicyState {
                offset: stop,
                collected: st.collected.update(
                    i,
                    Collected {
                        field: st.collected[i].field,
                        dims: st.collected[i].dims + signed(values),
                    },
                ),
            },
        ),
    decreases values.len(),
{
    let c = st.collected;
    let dims = c[i].dims;
    if values.len() == 0 {
        assert(dims + signed(values) =~= dims);
        assert(c.update(i, Collected { field: c[i].field, dims: dims + signed(values) }) =~= c);
    } else {
        let first = varint_bytes(values[0] as nat);
        let rest = values.skip(1);
        wire::stands_in_pieces(reach, st.offset, first, numbers_bytes(rest));
        wire::varint_round_trip(reach, st.offset, values[0] as nat, max);
        let grown = Collected { field: c[i].field, dims: dims.push(values[0] as i64) };
        let next = PolicyState {
            offset: st.offset + first.len(),
            collected: c.update(i, grown),
        };
        assert(forall|k: int| 0 <= k < rest.len() ==> rest[k] == values[k + 1]);
        row_is_collected(reach, next, rest, stop, i, max);
        assert(dims.push(values[0] as i64) + signed(rest) =~= dims + signed(values));
        let full = Collected { field: c[i].field, dims: dims + signed(values) };
        assert(next.collected.update(i, full) =~= c.update(i, full));
    }
}

/// Opening the entry of a field and adding dimensions to it takes them up.
proof fn entry_takes(c: Seq<Collected>, field: u32, dims: Seq<i64>)
    requires
        one_each(c),
        noted(fields_held(c), field).len() <= 16,
    ensures
        engine::opened(c, field).0 is Ok,
        ({
            let i = engine::opened(c, field).0->Ok_0;
            let opened = engine::opened(c, field).1;
            let full = Collected { field, dims: opened[i].dims + dims };
            &&& 0 <= i < opened.len()
            &&& opened[i].field == field
            &&& opened[i].dims == held(c, field)
            &&& took(c, opened.update(i, full), field, dims)
        }),
{
    slot_finds(c, field);
    let seen = fields_held(c);
    fields_agree(c, seen);
    let i = engine::opened(c, field).0->Ok_0;
    let opened = engine::opened(c, field).1;
    let full = Collected { field, dims: opened[i].dims + dims };
    let after = opened.update(i, full);
    assert(fields_held(after) =~= noted(seen, field));
    assert forall|k: int| 0 <= k < after.len() implies (#[trigger] after[k]).dims == held(
        c,
        after[k].field,
    ) + if after[k].field == field {
        dims
    } else {
        Seq::empty()
    } by {
        if k != i {
            assert(k < c.len());
            held_at(c, k);
            assert(after[k].field != field) by {
                if i < c.len() {
                    if k < i {
                        assert(c[k].field != c[i].field);
                    } else {
                        assert(c[i].field != c[k].field);
                    }
                } else {
                    if c[k].field == field {
                        assert(seen[k] == field);
                    }
                }
            }
            assert(c[k].dims + Seq::<i64>::empty() =~= c[k].dims);
        }
    }
}

// ---------------------------------------------------------------------------
// Depth
// ---------------------------------------------------------------------------

/// The error that ends a walk for a message nested too deep.
pub open spec fn too_deep() -> Result<(), WalkError> {
    Err(WalkError::Proto(ProtoError::RecursionLimit))
}

/// Reading a row of dimensions either fails, but never for its depth, or comes to its
/// end.
proof fn row_is_not_too_deep(
    reach: Seq<u8>,
    st: PolicyState,
    values: Seq<u64>,
    stop: int,
    i: int,
    max: int,
)
    requires
        stands_at(reach, st.offset, numbers_bytes(values)),
        stop == st.offset + numbers_bytes(values).len(),
        forall|k: int| 0 <= k < values.len() ==> 0 < #[trigger] values[k] < 0x8000_0000_0000_0000,
        forall|k: int|
            0 <= k < values.len() ==> varint_bytes(#[trigger] values[k] as nat).len() <= max,
        0 <= max,
    ensures
        engine::collect_packed(reach, st, stop, i, max).0 != too_deep(),
        engine::collect_packed(reach, st, stop, i, max).0 is Ok ==> engine::collect_packed(
            reach,
            st,
            stop,
            i,
            max,
        ).1.offset == stop,
    decreases values.len(),
{
    if values.len() > 0 {
        let first = varint_bytes(values[0] as nat);
        let rest = values.skip(1);
        wire::stands_in_pieces(reach, st.offset, first, numbers_bytes(rest));
        wire::varint_round_trip(reach, st.offset, values[0] as nat, max);
        assert(forall|k: int| 0 <= k < rest.len() ==> rest[k] == values[k + 1]);
        let (r, next) = engine::collect_dim(reach, st, i, max);
        if r is Ok {
            row_is_not_too_deep(reach, next, rest, stop, i, max);
        }
    }
}

/// What stands in a buffer stands in the part of it that is in reach.
proof fn stands_in_reach(buf: Seq<u8>, at: int, bytes: Seq<u8>, end: int)
    requires
        stands_at(buf, at, bytes),
        at + bytes.len() <= end <= buf.len(),
    ensures
        stands_at(buf.take(end), at, bytes),
{
    assert(buf.take(end).subrange(at, at + bytes.len()) =~= buf.subrange(at, at + bytes.len()));
}

/// What stands in the part of a buffer that is in reach stands in the buffer.
proof fn stands_behind(buf: Seq<u8>, at: int, bytes: Seq<u8>, end: int)
    requires
        0 <= end <= buf.len(),
        stands_at(buf.take(end), at, bytes),
    ensures
        stands_at(buf, at, bytes),
{
    assert(buf.take(end).subrange(at, at + bytes.len()) =~= buf.subrange(at, at + bytes.len()));
}

/// The walk passes `field`: it is refused where it is not allowed, or where taking it up
/// fails; otherwise the walk goes on at `next` with what was collected.
pub open spec fn passes(
    buf: Seq<u8>,
    st: PolicyState,
    end: int,
    depth: int,
    policy: DynamicPolicy,
    field: u32,
    taken: Result<(), WalkError>,
    next: PolicyState,
) -> bool {
    let r = engine::walk_policy_fields(buf, st, end, depth, policy);
    let allowed = depth == 0 && policy.field_allow_list is Some
        ==> policy.field_allow_list->0@.contains(field);
    &&& !allowed ==> r.0 == Err::<(), _>(WalkError::DisallowedField(field))
    &&& allowed && taken is Err ==> r.0 == taken
    &&& allowed && taken is Ok ==> r == engine::walk_policy_fields(buf, next, end, depth, policy)
}

proof fn number_is_passed(
    buf: Seq<u8>,
    st: PolicyState,
    field: u32,
    value: u64,
    behind: Seq<u8>,
    end: int,
    depth: int,
    policy: DynamicPolicy,
) -> (r: (Result<(), WalkError>, PolicyState))
    requires
        stands_at(buf, st.offset, tag_bytes(field, 0) + (varint_bytes(value as nat) + behind)),
        end == st.offset + (tag_bytes(field, 0) + (varint_bytes(value as nat) + behind)).len(),
        value < 0x8000_0000_0000_0000,
        tag_bytes(field, 0).len() <= policy.max_varint_bytes,
        varint_bytes(value as nat).len() <= policy.max_varint_bytes,
    ensures
        passes(buf, st, end, depth, policy, field, r.0, r.1),
        r.0 != too_deep(),
        stands_at(buf, r.1.offset, behind),
        end == r.1.offset + behind.len(),
        !policy.shape_rules@.contains_key(field) ==> r.0 is Ok && r.1.collected == st.collected,
        policy.shape_rules@.contains_key(field) && value > 0 && one_each(st.collected) && noted(
            fields_held(st.collected),
            field,
        ).len() <= 16 && held(st.collected, field).len() < 16 ==> r.0 is Ok && took(
            st.collected,
            r.1.collected,
            field,
            signed(seq![value]),
        ),
{
    let max = policy.max_varint_bytes as int;
    let reach = buf.take(end);
    let at = st.offset;
    let tag = tag_bytes(field, 0);
    let number = varint_bytes(value as nat);
    let next = at + tag.len() + number.len();
    stands_in_reach(buf, at, tag + (number + behind), end);
    wire::stands_in_pieces(reach, at, tag, number + behind);
    wire::stands_in_pieces(reach, at + tag.len(), number, behind);
    wire::tag_round_trip(reach, at, field, 0, max);
    wire::varint_round_trip(reach, at + tag.len(), value as nat, max);
    stands_behind(buf, next, behind, end);
    let c = st.collected;
    if policy.shape_rules@.contains_key(field) {
        let here = PolicyState { offset: at + tag.len(), ..st };
        let (r, after) = engine::collect_field(buf, here, end, field, 0, max);
        let (i, opened) = engine::opened(c, field);
        slot_finds(c, field);
        if value > 0 && one_each(c) && noted(fields_held(c), field).len() <= 16 && held(
            c,
            field,
        ).len() < 16 {
            entry_takes(c, field, signed(seq![value]));
            assert(opened[i->Ok_0].dims + signed(seq![value]) =~= opened[i->Ok_0].dims.push(
                value as i64,
            ));
        }
        (r, PolicyState { offset: next, collected: after.collected })
    } else {
        (Ok(()), PolicyState { offset: next, ..st })
    }
}

proof fn fixed_is_passed(
    buf: Seq<u8>,
    st: PolicyState,
    field: u32,
    bytes: Seq<u8>,
    behind: Seq<u8>,
    end: int,
    depth: int,
    policy: DynamicPolicy,
) -> (r: PolicyState)
    requires
        stands_at(buf, st.offset, tag_bytes(field, fixed_type(bytes)) + (bytes + behind)),
        end == st.offset + (tag_bytes(field, fixed_type(bytes)) + (bytes + behind)).len(),
        bytes.len() == 4 || bytes.len() == 8,
        !policy.shape_rules@.contains_key(field),
        tag_bytes(field, fixed_type(bytes)).len() <= policy.max_varint_bytes,
    ensures
        passes(buf, st, end, depth, policy, field, Ok(()), r),
        stands_at(buf, r.offset, behind),
        end == r.offset + behind.len(),
        r.collected == st.collected,
{
    let max = policy.max_varint_bytes as int;
    let reach = buf.take(end);
    let at = st.offset;
    let tag = tag_bytes(field, fixed_type(bytes));
    let next = at + tag.len() + bytes.len();
    stands_in_reach(buf, at, tag + (bytes + behind), end);
    wire::stands_in_pieces(reach, at, tag, bytes + behind);
    wire::stands_in_pieces(reach, at + tag.len(), bytes, behind);
    wire::tag_round_trip(reach, at, field, fixed_type(bytes), max);
    stands_behind(buf, next, behind, end);
    PolicyState { offset: next, ..st }
}

proof fn row_is_passed(
    buf: Seq<u8>,
    st: PolicyState,
    field: u32,
    values: Seq<u64>,
    behind: Seq<u8>,
    end: int,
    depth: int,
    policy: DynamicPolicy,
) -> (r: (Result<(), WalkError>, PolicyState))
    requires
        ({
            let row = numbers_bytes(values);
            let all = tag_bytes(field, 2) + (varint_bytes(row.len()) + (row + behind));
            &&& stands_at(buf, st.offset, all)
            &&& end == st.offset + all.len()
            &&& varint_bytes(row.len()).len() <= policy.max_varint_bytes
        }),
        buf.len() < 0x8000_0000_0000_0000,
        policy.shape_rules@.contains_key(field),
        tag_bytes(field, 2).len() <= policy.max_varint_bytes,
        forall|k: int| 0 <= k < values.len() ==> 0 < #[trigger] values[k] < 0x8000_0000_0000_0000,
        forall|k: int|
            0 <= k < values.len() ==> varint_bytes(#[trigger] values[k] as nat).len()
                <= policy.max_varint_bytes,
    ensures
        passes(buf, st, end, depth, policy, field, r.0, r.1),
        r.0 != too_deep(),
        r.0 is Ok ==> stands_at(buf, r.1.offset, behind) && end == r.1.offset + behind.len(),
        one_each(st.collected) && noted(fields_held(st.collected), field).len() <= 16 && held(
            st.collected,
            field,
        ).len() + values.len() <= 16 ==> r.0 is Ok && took(
            st.collected,
            r.1.collected,
            field,
            signed(values),
        ),
{
    let max = policy.max_varint_bytes as int;
    let reach = buf.take(end);
    let at = st.offset;
    let row = numbers_bytes(values);
    let tag = tag_bytes(field, 2);
    let c = st.collected;
    stands_in_reach(buf, at, tag + (varint_bytes(row.len()) + (row + behind)), end);
    let (start, stop) = wire::delimited_is_read(reach, at, field, row, behind, max);
    wire::stands_in_pieces(reach, start, row, behind);
    stands_behind(buf, stop, behind, end);
    assert(protobuf::delimited(reach, at + tag.len(), end, max) == (
        Ok::<int, ProtoError>(stop),
        start,
    ));
    let here = PolicyState { offset: at + tag.len(), ..st };
    let (i, opened) = engine::opened(c, field);
    slot_finds(c, field);
    if i is Ok {
        let inside = PolicyState { offset: start, collected: opened };
        row_is_not_too_deep(reach, inside, values, stop, i->Ok_0, max);
        if one_each(c) && noted(fields_held(c), field).len() <= 16 && held(c, field).len()
            + values.len() <= 16 {
            entry_takes(c, field, signed(values));
            row_is_collected(reach, inside, values, stop, i->Ok_0, max);
        }
    } else {
        if one_each(c) && noted(fields_held(c), field).len() <= 16 {
            entry_takes(c, field, signed(values));
        }
    }
    engine::collect_field(buf, here, end, field, 2, max)
}

/// The walk goes on behind a length-delimited field without a rule, with what it had
/// before, whatever stands in the field; only a message nested too deep in it ends the
/// walk.
pub proof fn content_is_passed(
    buf: Seq<u8>,
    st: PolicyState,
    field: u32,
    content: Seq<u8>,
    behind: Seq<u8>,
    end: int,
    depth: int,
    policy: DynamicPolicy,
) -> (start: int)
    requires
        ({
            let all = tag_bytes(field, 2) + (varint_bytes(content.len()) + (content + behind));
            &&& stands_at(buf, st.offset, all)
            &&& end == st.offset + all.len()
        }),
        buf.len() < 0x8000_0000_0000_0000,
        !policy.shape_rules@.contains_key(field),
        tag_bytes(field, 2).len() <= policy.max_varint_bytes,
        varint_bytes(content.len()).len() <= policy.max_varint_bytes,
    ensures
        st.offset < start,
        stands_at(buf, start, content),
        stands_at(buf, start + content.len(), behind),
        end == start + content.len() + behind.len(),
        ({
            let inside = engine::walk_policy(
                buf,
                start,
                start + content.len(),
                depth + 1,
                policy,
            ).0;
            passes(
                buf,
                st,
                end,
                depth,
                policy,
                field,
                if inside == too_deep() {
                    too_deep()
                } else {
                    Ok(())
                },
                PolicyState { offset: start + content.len(), ..st },
            )
        }),
{
    let max = policy.max_varint_bytes as int;
    let reach = buf.take(end);
    let at = st.offset;
    let tag = tag_bytes(field, 2);
    stands_in_reach(buf, at, tag + (varint_bytes(content.len()) + (content + behind)), end);
    let (start, stop) = wire::delimited_is_read(reach, at, field, content, behind, max);
    wire::stands_in_pieces(reach, start, content, behind);
    stands_behind(buf, stop, behind, end);
    stands_behind(buf, start, content, end);
    assert(protobuf::delimited(reach, at + tag.len(), end, max) == (
        Ok::<int, ProtoError>(stop),
        start,
    ));
    start
}

/// A message that is not nested too deep is never refused for its depth, whatever else
/// is wrong with it, and whether it stands alone or at the start of a text.
proof fn shallow_fields_are_not_too_deep(
    buf: Seq<u8>,
    st: PolicyState,
    m: Message,
    tail: Seq<u8>,
    end: int,
    depth: int,
    policy: DynamicPolicy,
)
    requires
        stands_at(buf, st.offset, encoded(m) + tail),
        end == st.offset + (encoded(m) + tail).len(),
        tail.len() == 0 || is_no_field(tail),
        buf.len() < 0x8000_0000_0000_0000,
        sound(m, policy.shape_rules@.dom()),
        narrow(m, policy.max_varint_bytes as int),
        policy.max_varint_bytes >= 1,
        depth + height(m) <= policy.max_recursion_depth,
    ensures
        engine::walk_policy_fields(buf, st, end, depth, policy).0 != too_deep(),
    decreases m, 0int,
{
    let at = st.offset;
    let none = Seq::<u8>::empty();
    match m {
        Message::End => {
            assert(encoded(m) + tail =~= tail);
            tail_is_not_too_deep(buf, st, tail, end, depth, policy);
        },
        Message::Number { field, value, rest } => {
            let behind = encoded(*rest) + tail;
            assert(encoded(m) + tail =~= tag_bytes(field, 0) + (varint_bytes(value as nat)
                + behind));
            let (r, next) = number_is_passed(buf, st, field, value, behind, end, depth, policy);
            shallow_fields_are_not_too_deep(buf, next, *rest, tail, end, depth, policy);
        },
        Message::Fixed { field, bytes, rest } => {
            let behind = encoded(*rest) + tail;
            assert(encoded(m) + tail =~= tag_bytes(field, fixed_type(bytes)) + (bytes + behind));
            let next = fixed_is_passed(buf, st, field, bytes, behind, end, depth, policy);
            shallow_fields_are_not_too_deep(buf, next, *rest, tail, end, depth, policy);
        },
        Message::Numbers { field, values, rest } => {
            let row = numbers_bytes(values);
            let behind = encoded(*rest) + tail;
            assert(encoded(m) + tail =~= tag_bytes(field, 2) + (varint_bytes(row.len()) + (row
                + behind)));
            let (r, next) = row_is_passed(buf, st, field, values, behind, end, depth, policy);
            if r is Ok {
                shallow_fields_are_not_too_deep(buf, next, *rest, tail, end, depth, policy);
            }
        },
        Message::Nested { field, content, rest } => {
            let inner = encoded(*content);
            let behind = encoded(*rest) + tail;
            assert(encoded(m) + tail =~= tag_bytes(field, 2) + (varint_bytes(inner.len()) + (inner
                + behind)));
            let start = content_is_passed(buf, st, field, inner, behind, end, depth, policy);
            let stop = start + inner.len();
            assert(inner + none =~= inner);
            shallow_message_is_not_too_deep(buf, start, *content, none, stop, depth + 1, policy);
            let next = PolicyState { offset: stop, ..st };
            shallow_fields_are_not_too_deep(buf, next, *rest, tail, end, depth, policy);
        },
        Message::Text { field, start: opening, tail: text, rest } => {
            let inner = encoded(*opening) + text;
            let behind = encoded(*rest) + tail;
            assert(encoded(m) + tail =~= tag_bytes(field, 2) + (varint_bytes(inner.len()) + (inner
                + behind)));
            let start = content_is_passed(buf, st, field, inner, behind, end, depth, policy);
            let stop = start + inner.len();
            shallow_message_is_not_too_deep(buf, start, *opening, text, stop, depth + 1, policy);
            let next = PolicyState { offset: stop, ..st };
            shallow_fields_are_not_too_deep(buf, next, *rest, tail, end, depth, policy);
        },
    }
}

proof fn tail_is_not_too_deep(
    buf: Seq<u8>,
    st: PolicyState,
    tail: Seq<u8>,
    end: int,
    depth: int,
    policy: DynamicPolicy,
)
    requires
        stands_at(buf, st.offset, tail),
        end == st.offset + tail.len(),
        tail.len() == 0 || is_no_field(tail),
        policy.max_varint_bytes >= 1,
    ensures
        engine::walk_policy_fields(buf, st, end, depth, policy).0 != too_deep(),
{
    let at = st.offset;
    let reach = buf.take(end);
    if tail.len() > 0 {
        stands_in_reach(buf, at, tail, end);
        assert(reach.subrange(at, at + tail.len())[0] == reach[at]);
        protobuf::single_byte_varint(reach, at, policy.max_varint_bytes as int);
    }
}

proof fn shallow_message_is_not_too_deep(
    buf: Seq<u8>,
    offset: int,
    m: Message,
    tail: Seq<u8>,
    end: int,
    depth: int,
    policy: DynamicPolicy,
)
    requires
        stands_at(buf, offset, encoded(m) + tail),
        end == offset + (encoded(m) + tail).len(),
        tail.len() == 0 || is_no_field(tail),
        buf.len() < 0x8000_0000_0000_0000,
        sound(m, policy.shape_rules@.dom()),
        narrow(m, policy.max_varint_bytes as int),
        policy.max_varint_bytes >= 1,
        depth + height(m) <= policy.max_recursion_depth,
    ensures
        engine::walk_policy(buf, offset, end, depth, policy).0 != too_deep(),
    decreases m, 1int,
{
    let st = PolicyState { offset, collected: Seq::empty() };
    shallow_fields_are_not_too_deep(buf, st, m, tail, end, depth, policy);
    wire::height_not_negative(m);
    no_violation_is_too_deep(
        engine::walk_policy_fields(buf, st, end, depth, policy).1.collected,
        policy.shape_rules@,
    );
}

proof fn no_violation_is_too_deep(c: Seq<Collected>, rules: Map<u32, ShapeRule>)
    ensures
        engine::collected_violation(c, rules) != Some(WalkError::Proto(ProtoError::RecursionLimit)),
    decreases c.len(),
{
    if c.len() > 0 {
        no_violation_is_too_deep(c.skip(1), rules);
    }
}

// ---------------------------------------------------------------------------
// What is collected
// ---------------------------------------------------------------------------

/// Every field at the top level may stand there.
pub open spec fn all_allowed(m: Message, policy: DynamicPolicy) -> bool {
    policy.field_allow_list is Some ==> forall|i: int|
        0 <= i < top_fields(m).len() ==> policy.field_allow_list->0@.contains(
            #[trigger] top_fields(m)[i],
        )
}

/// There is room for what the message adds: sixteen fields, each with sixteen
/// dimensions.
pub open spec fn has_room(c: Seq<Collected>, m: Message, shapes: Set<u32>) -> bool {
    &&& met(m, shapes, fields_held(c)).len() <= 16
    &&& forall|f: u32|
        shapes.contains(f) ==> #[trigger] held(c, f).len() + top_values(m, f).len() <= 16
}

/// Something was collected for fields of `shapes` only, with one entry for each.
pub open spec fn kept(c: Seq<Collected>, shapes: Set<u32>) -> bool {
    &&& one_each(c)
    &&& forall|i: int| 0 <= i < c.len() ==> shapes.contains((#[trigger] c[i]).field)
}

proof fn met_grows(m: Message, shapes: Set<u32>, seen: Seq<u32>)
    ensures
        seen.len() <= met(m, shapes, seen).len(),
    decreases m,
{
    match m {
        Message::End => {},
        Message::Number { field, rest, .. } => {
            met_grows(*rest, shapes, noted(seen, field));
            met_grows(*rest, shapes, seen);
        },
        Message::Fixed { rest, .. } => met_grows(*rest, shapes, seen),
        Message::Numbers { field, rest, .. } => met_grows(*rest, shapes, noted(seen, field)),
        Message::Nested { rest, .. } => met_grows(*rest, shapes, seen),
        Message::Text { rest, .. } => met_grows(*rest, shapes, seen),
    }
}

proof fn rest_is_allowed(m: Message, field: u32, rest: Message, policy: DynamicPolicy)
    requires
        all_allowed(m, policy),
        top_fields(m) == seq![field] + top_fields(rest),
    ensures
        all_allowed(rest, policy),
        policy.field_allow_list is Some ==> policy.field_allow_list->0@.contains(field),
{
    assert(top_fields(m)[0] == field);
    assert forall|i: int|
        policy.field_allow_list is Some && 0 <= i < top_fields(
            rest,
        ).len() implies policy.field_allow_list->0@.contains(#[trigger] top_fields(rest)[i]) by {
        assert(top_fields(m)[i + 1] == top_fields(rest)[i]);
    }
}

proof fn nothing_is_added(c: Seq<Collected>, shapes: Set<u32>)
    requires
        one_each(c),
    ensures
        grown(c, c, Message::End, shapes),
{
    assert forall|i: int| 0 <= i < c.len() implies (#[trigger] c[i]).dims == held(c, c[i].field)
        + signed(top_values(Message::End, c[i].field)) by {
        held_at(c, i);
        assert(c[i].dims + signed(top_values(Message::End, c[i].field)) =~= c[i].dims);
    }
}

/// A field without a rule adds nothing.
proof fn grown_alike(
    before: Seq<Collected>,
    after: Seq<Collected>,
    rest: Message,
    m: Message,
    shapes: Set<u32>,
)
    requires
        grown(before, after, rest, shapes),
        kept(after, shapes),
        met(m, shapes, fields_held(before)) == met(rest, shapes, fields_held(before)),
        forall|f: u32| shapes.contains(f) ==> #[trigger] top_values(m, f) == top_values(rest, f),
    ensures
        grown(before, after, m, shapes),
{
    assert forall|i: int| 0 <= i < after.len() implies (#[trigger] after[i]).dims == held(
        before,
        after[i].field,
    ) + signed(top_values(m, after[i].field)) by {
        assert(shapes.contains(after[i].field));
    }
}

/// A field with a rule was taken up: there is room for the rest.
proof fn room_is_left(
    c: Seq<Collected>,
    mid: Seq<Collected>,
    field: u32,
    values: Seq<u64>,
    rest: Message,
    m: Message,
    shapes: Set<u32>,
)
    requires
        kept(c, shapes),
        shapes.contains(field),
        took(c, mid, field, signed(values)),
        has_room(c, m, shapes),
        met(m, shapes, fields_held(c)) == met(rest, shapes, noted(fields_held(c), field)),
        forall|f: u32| #[trigger]
            top_values(m, f) == if f == field {
                values + top_values(rest, f)
            } else {
                top_values(rest, f)
            },
    ensures
        kept(mid, shapes),
        has_room(mid, rest, shapes),
{
    took_one_each(c, mid, field, signed(values));
    let seen = fields_held(c);
    fields_agree(mid, noted(seen, field));
    fields_agree(c, seen);
    assert forall|i: int| 0 <= i < mid.len() implies shapes.contains((#[trigger] mid[i]).field) by {
        if i < c.len() {
            assert(shapes.contains(c[i].field));
        }
    }
    assert forall|f: u32| shapes.contains(f) implies #[trigger] held(mid, f).len() + top_values(
        rest,
        f,
    ).len() <= 16 by {
        assert(held(c, f).len() + top_values(m, f).len() <= 16);
    }
}

/// The walk of a message that was written collects, for every field with a rule, exactly
/// the numbers that were written into it at the top level, in their order, behind what
/// was collected before. Every field keeps an entry of its own.
proof fn written_fields_are_collected(
    buf: Seq<u8>,
    st: PolicyState,
    m: Message,
    end: int,
    depth: int,
    policy: DynamicPolicy,
)
    requires
        stands_at(buf, st.offset, encoded(m)),
        end == st.offset + encoded(m).len(),
        buf.len() < 0x8000_0000_0000_0000,
        sound(m, policy.shape_rules@.dom()),
        narrow(m, policy.max_varint_bytes as int),
        policy.max_varint_bytes >= 1,
        depth + height(m) <= policy.max_recursion_depth,
        depth == 0 ==> all_allowed(m, policy),
        kept(st.collected, policy.shape_rules@.dom()),
        has_room(st.collected, m, policy.shape_rules@.dom()),
    ensures
        ({
            let (r, after) = engine::walk_policy_fields(buf, st, end, depth, policy);
            &&& r == Ok::<(), WalkError>(())
            &&& after.offset == end
            &&& kept(after.collected, policy.shape_rules@.dom())
            &&& grown(st.collected, after.collected, m, policy.shape_rules@.dom())
        }),
    decreases m,
{
    let shapes = policy.shape_rules@.dom();
    let c = st.collected;
    let (r, after) = engine::walk_policy_fields(buf, st, end, depth, policy);
    let none = Seq::<u8>::empty();
    match m {
        Message::End => {
            nothing_is_added(c, shapes);
        },
        Message::Number { field, value, rest } => {
            let behind = encoded(*rest);
            let (ok, next) = number_is_passed(buf, st, field, value, behind, end, depth, policy);
            if depth == 0 {
                rest_is_allowed(m, field, *rest, policy);
            }
            if shapes.contains(field) {
                met_grows(*rest, shapes, noted(fields_held(c), field));
                assert(held(c, field).len() + top_values(m, field).len() <= 16);
                room_is_left(c, next.collected, field, seq![value], *rest, m, shapes);
                written_fields_are_collected(buf, next, *rest, end, depth, policy);
                grown_in_steps(
                    c,
                    next.collected,
                    after.collected,
                    field,
                    seq![value],
                    *rest,
                    m,
                    shapes,
                );
            } else {
                assert forall|f: u32| shapes.contains(f) implies #[trigger] held(c, f).len()
                    + top_values(*rest, f).len() <= 16 by {
                    assert(top_values(m, f) == top_values(*rest, f));
                }
                written_fields_are_collected(buf, next, *rest, end, depth, policy);
                grown_alike(c, after.collected, *rest, m, shapes);
            }
        },
        Message::Fixed { field, bytes, rest } => {
            let next = fixed_is_passed(buf, st, field, bytes, encoded(*rest), end, depth, policy);
            if depth == 0 {
                rest_is_allowed(m, field, *rest, policy);
            }
            same_room(c, *rest, m, shapes);
            written_fields_are_collected(buf, next, *rest, end, depth, policy);
            grown_alike(c, after.collected, *rest, m, shapes);
        },
        Message::Numbers { field, values, rest } => {
            let behind = encoded(*rest);
            met_grows(*rest, shapes, noted(fields_held(c), field));
            assert(held(c, field).len() + top_values(m, field).len() <= 16);
            let (ok, next) = row_is_passed(buf, st, field, values, behind, end, depth, policy);
            if depth == 0 {
                rest_is_allowed(m, field, *rest, policy);
            }
            room_is_left(c, next.collected, field, values, *rest, m, shapes);
            written_fields_are_collected(buf, next, *rest, end, depth, policy);
            grown_in_steps(
                c,
                next.collected,
                after.collected,
                field,
                values,
                *rest,
                m,
                shapes,
            );
        },
        Message::Nested { field, content, rest } => {
            let inner = encoded(*content);
            let start = content_is_passed(
                buf,
                st,
                field,
                inner,
                encoded(*rest),
                end,
                depth,
                policy,
            );
            let stop = start + inner.len();
            assert(inner + none =~= inner);
            shallow_message_is_not_too_deep(buf, start, *content, none, stop, depth + 1, policy);
            let next = PolicyState { offset: stop, ..st };
            if depth == 0 {
                rest_is_allowed(m, field, *rest, policy);
            }
            same_room(c, *rest, m, shapes);
            written_fields_are_collected(buf, next, *rest, end, depth, policy);
            grown_alike(c, after.collected, *rest, m, shapes);
        },
        Message::Text { field, start: opening, tail, rest } => {
            let inner = encoded(*opening) + tail;
            let start = content_is_passed(
                buf,
                st,
                field,
                inner,
                encoded(*rest),
                end,
                depth,
                policy,
            );
            let stop = start + inner.len();
            shallow_message_is_not_too_deep(buf, start, *opening, tail, stop, depth + 1, policy);
            let next = PolicyState { offset: stop, ..st };
            if depth == 0 {
                rest_is_allowed(m, field, *rest, policy);
            }
            same_room(c, *rest, m, shapes);
            written_fields_are_collected(buf, next, *rest, end, depth, policy);
            grown_alike(c, after.collected, *rest, m, shapes);
        },
    }
}

proof fn same_room(c: Seq<Collected>, rest: Message, m: Message, shapes: Set<u32>)
    requires
        has_room(c, m, shapes),
        met(m, shapes, fields_held(c)) == met(rest, shapes, fields_held(c)),
        forall|f: u32| #[trigger] top_values(m, f) == top_values(rest, f),
    ensures
        has_room(c, rest, shapes),
{
    assert forall|f: u32| shapes.contains(f) implies #[trigger] held(c, f).len() + top_values(
        rest,
        f,
    ).len() <= 16 by {
        assert(top_values(m, f) == top_values(rest, f));
    }
}

// ---------------------------------------------------------------------------
// Rules
// ---------------------------------------------------------------------------

/// The dimensions are of a kind that is collected.
pub open spec fn proper(dims: Seq<u64>) -> bool {
    forall|i: int| 0 <= i < dims.len() ==> 0 < #[trigger] dims[i] < 0x8000_0000_0000_0000
}

/// There are not too few dimensions.
pub open spec fn enough_dims(dims: Seq<u64>, rule: ShapeRule) -> bool {
    rule.min_dimensions matches Some(min) ==> min <= dims.len()
}

/// There are not too many dimensions.
pub open spec fn few_enough_dims(dims: Seq<u64>, rule: ShapeRule) -> bool {
    rule.max_dimensions matches Some(max) ==> dims.len() <= max
}

/// The tensor does not have too many elements.
pub open spec fn small_enough(dims: Seq<u64>, rule: ShapeRule) -> bool {
    rule.max_tensor_elements is Some && dims.len() > 0 ==> wire::elements(dims)
        <= rule.max_tensor_elements->0
}

/// The shape is on the list, where there is one.
pub open spec fn on_the_list(dims: Seq<u64>, rule: ShapeRule) -> bool {
    rule.exact_shapes matches Some(list) ==> exists|i: int|
        0 <= i < list@.len() && (#[trigger] list@[i])@ == signed(dims)
}

/// The dimension at the index of the bound, if there is one, is between its ends.
pub open spec fn in_bound(dims: Seq<u64>, bound: DimensionBound) -> bool {
    bound.index < dims.len() ==> {
        &&& bound.min matches Some(min) ==> min <= dims[bound.index as int]
        &&& bound.max matches Some(max) ==> dims[bound.index as int] <= max
    }
}

/// Every dimension that has bounds keeps to them.
pub open spec fn in_bounds(dims: Seq<u64>, rule: ShapeRule) -> bool {
    rule.dimension_bounds matches Some(bounds) ==> forall|i: int|
        0 <= i < bounds@.len() ==> in_bound(dims, #[trigger] bounds@[i])
}

/// The dimensions keep every part of the rule.
pub open spec fn keeps_rule(dims: Seq<u64>, rule: ShapeRule) -> bool {
    &&& enough_dims(dims, rule)
    &&& few_enough_dims(dims, rule)
    &&& small_enough(dims, rule)
    &&& on_the_list(dims, rule)
    &&& in_bounds(dims, rule)
}

/// The reason says which part of the rule the dimensions break, and how; the parts that
/// are looked at before it are kept.
pub open spec fn true_reason(dims: Seq<u64>, rule: ShapeRule, reason: RuleViolationReason) -> bool {
    match reason {
        RuleViolationReason::DimensionTooSmall { got, limit } => {
            &&& rule.min_dimensions == Some(limit)
            &&& got == dims.len()
            &&& got < limit
        },
        RuleViolationReason::DimensionTooLarge { got, limit } => {
            &&& enough_dims(dims, rule)
            &&& rule.max_dimensions == Some(limit)
            &&& got == dims.len()
            &&& got > limit
        },
        RuleViolationReason::TensorSizeExceeded { got, limit } => {
            &&& enough_dims(dims, rule) && few_enough_dims(dims, rule)
            &&& rule.max_tensor_elements == Some(limit)
            &&& got == if wire::elements(dims) > u64::MAX {
                u64::MAX as nat
            } else {
                wire::elements(dims)
            }
            &&& wire::elements(dims) > limit
        },
        RuleViolationReason::ExactShapeMismatch => {
            &&& enough_dims(dims, rule) && few_enough_dims(dims, rule)
            &&& small_enough(dims, rule)
            &&& !on_the_list(dims, rule)
        },
        RuleViolationReason::DimensionBoundViolation { index, val, min, max } => {
            &&& enough_dims(dims, rule) && few_enough_dims(dims, rule)
            &&& small_enough(dims, rule) && on_the_list(dims, rule)
            &&& index < dims.len()
            &&& val == dims[index as int]
            &&& exists|i: int|
                0 <= i < rule.dimension_bounds->0@.len() && first_broken(
                    dims,
                    #[trigger] rule.dimension_bounds->0@[i],
                    index,
                    min,
                    max,
                ) && forall|j: int|
                    0 <= j < i ==> in_bound(dims, #[trigger] rule.dimension_bounds->0@[j])
        },
    }
}

/// `bound` is the one with this index and these ends, and the dimensions break it.
pub open spec fn first_broken(
    dims: Seq<u64>,
    bound: DimensionBound,
    index: usize,
    min: Option<i64>,
    max: Option<i64>,
) -> bool {
    bound.index == index && bound.min == min && bound.max == max && !in_bound(dims, bound)
}

proof fn bounds_are_kept(dims: Seq<u64>, bounds: Seq<DimensionBound>)
    requires
        proper(dims),
    ensures
        match engine::bound_violation(signed(dims), bounds) {
            None => forall|i: int| 0 <= i < bounds.len() ==> in_bound(dims, #[trigger] bounds[i]),
            Some(RuleViolationReason::DimensionBoundViolation { index, val, min, max }) => {
                &&& index < dims.len()
                &&& val == dims[index as int]
                &&& exists|i: int|
                    0 <= i < bounds.len() && first_broken(
                        dims,
                        #[trigger] bounds[i],
                        index,
                        min,
                        max,
                    ) && forall|j: int| 0 <= j < i ==> in_bound(dims, #[trigger] bounds[j])
            },
            _ => false,
        },
    decreases bounds.len(),
{
    if bounds.len() > 0 {
        let shape = signed(dims);
        if bounds[0].index < dims.len() {
            assert(shape[bounds[0].index as int] == dims[bounds[0].index as int]);
        }
        assert(engine::within_bound(shape, bounds[0]) == in_bound(dims, bounds[0]));
        let rest = bounds.skip(1);
        bounds_are_kept(dims, rest);
        assert(forall|i: int| 0 < i < bounds.len() ==> bounds[i] == rest[i - 1]);
        if in_bound(dims, bounds[0]) {
            if let Some(RuleViolationReason::DimensionBoundViolation { index, val, min, max }) =
                engine::bound_violation(shape, bounds) {
                let i = choose|i: int|
                    0 <= i < rest.len() && first_broken(dims, #[trigger] rest[i], index, min, max)
                        && forall|j: int| 0 <= j < i ==> in_bound(dims, #[trigger] rest[j]);
                assert(bounds[i + 1] == rest[i]);
                assert forall|j: int| 0 <= j < i + 1 implies in_bound(
                    dims,
                    #[trigger] bounds[j],
                ) by {
                    if j > 0 {
                        assert(bounds[j] == rest[j - 1]);
                    }
                }
            }
        } else {
            assert(first_broken(
                dims,
                bounds[0],
                bounds[0].index,
                bounds[0].min,
                bounds[0].max,
            ));
        }
    }
}

/// A shape passes exactly where it keeps every part of its rule, and what is reported of
/// one that does not is true.
pub proof fn rule_is_kept(dims: Seq<u64>, rule: ShapeRule)
    requires
        proper(dims),
        dims.len() <= 16,
    ensures
        engine::rule_violation(signed(dims), rule) is None <==> keeps_rule(dims, rule),
        engine::rule_violation(signed(dims), rule) matches Some(reason) ==> true_reason(
            dims,
            rule,
            reason,
        ),
{
    let shape = signed(dims);
    assert forall|i: int| 0 <= i < shape.len() implies shape[i] > 0 by {
        assert(0 < dims[i] < 0x8000_0000_0000_0000);
    }
    wire::elements_are_counted(dims);
    protobuf::product_of_positive(shape);
    if let Some(bounds) = rule.dimension_bounds {
        bounds_are_kept(dims, bounds@);
    }
}

// ---------------------------------------------------------------------------
// Verdicts
// ---------------------------------------------------------------------------

proof fn met_means(m: Message, shapes: Set<u32>, seen: Seq<u32>, f: u32)
    requires
        sound(m, shapes),
    ensures
        met(m, shapes, seen).contains(f) <==> seen.contains(f) || (shapes.contains(f)
            && top_fields(m).contains(f)),
    decreases m,
{
    match m {
        Message::End => {},
        Message::Number { field, rest, .. } => {
            first_or_rest(field, top_fields(*rest), f);
            if shapes.contains(field) {
                noted_means(seen, field, f);
                met_means(*rest, shapes, noted(seen, field), f);
            } else {
                met_means(*rest, shapes, seen, f);
            }
        },
        Message::Fixed { field, rest, .. } => {
            first_or_rest(field, top_fields(*rest), f);
            met_means(*rest, shapes, seen, f);
        },
        Message::Numbers { field, rest, .. } => {
            first_or_rest(field, top_fields(*rest), f);
            noted_means(seen, field, f);
            met_means(*rest, shapes, noted(seen, field), f);
        },
        Message::Nested { field, rest, .. } => {
            first_or_rest(field, top_fields(*rest), f);
            met_means(*rest, shapes, seen, f);
        },
        Message::Text { field, rest, .. } => {
            first_or_rest(field, top_fields(*rest), f);
            met_means(*rest, shapes, seen, f);
        },
    }
}

proof fn first_or_rest(first: u32, rest: Seq<u32>, f: u32)
    ensures
        (seq![first] + rest).contains(f) <==> first == f || rest.contains(f),
{
    let all = seq![first] + rest;
    assert(all[0] == first);
    if rest.contains(f) {
        let i = choose|i: int| 0 <= i < rest.len() && rest[i] == f;
        assert(all[i + 1] == f);
    }
    if all.contains(f) && first != f {
        let i = choose|i: int| 0 <= i < all.len() && all[i] == f;
        assert(rest[i - 1] == f);
    }
}

proof fn noted_means(seen: Seq<u32>, field: u32, f: u32)
    ensures
        noted(seen, field).contains(f) <==> seen.contains(f) || f == field,
{
    if !seen.contains(field) {
        vstd::seq_lib::lemma_seq_contains_after_push(seen, field, f);
        assert(seen.push(field)[seen.len() as int] == field);
    }
}

proof fn top_values_are_proper(m: Message, shapes: Set<u32>, f: u32)
    requires
        sound(m, shapes),
        shapes.contains(f),
    ensures
        proper(top_values(m, f)),
    decreases m,
{
    match m {
        Message::End => {},
        Message::Number { rest, .. } => top_values_are_proper(*rest, shapes, f),
        Message::Fixed { rest, .. } => top_values_are_proper(*rest, shapes, f),
        Message::Numbers { rest, .. } => top_values_are_proper(*rest, shapes, f),
        Message::Nested { rest, .. } => top_values_are_proper(*rest, shapes, f),
        Message::Text { rest, .. } => top_values_are_proper(*rest, shapes, f),
    }
}

/// What was collected is held against the rules entry by entry: the first that breaks
/// its rule is reported.
proof fn entries_are_held_against_rules(c: Seq<Collected>, rules: Map<u32, ShapeRule>)
    requires
        forall|i: int| 0 <= i < c.len() ==> rules.contains_key((#[trigger] c[i]).field),
    ensures
        match engine::collected_violation(c, rules) {
            None => forall|i: int|
                0 <= i < c.len() ==> engine::rule_violation(
                    (#[trigger] c[i]).dims,
                    rules[c[i].field],
                ) is None,
            Some(e) => exists|i: int|
                0 <= i < c.len() && broken_at(#[trigger] c[i], rules, e) && forall|j: int|
                    0 <= j < i ==> engine::rule_violation(
                        (#[trigger] c[j]).dims,
                        rules[c[j].field],
                    ) is None,
        },
    decreases c.len(),
{
    if c.len() > 0 {
        let rest = c.skip(1);
        assert(forall|i: int| 0 <= i < rest.len() ==> rest[i] == c[i + 1]);
        entries_are_held_against_rules(rest, rules);
        assert(forall|i: int| 0 < i < c.len() ==> c[i] == rest[i - 1]);
        if engine::rule_violation(c[0].dims, rules[c[0].field]) is Some {
            assert(broken_at(c[0], rules, engine::collected_violation(c, rules)->0));
        } else if let Some(e) = engine::collected_violation(rest, rules) {
            let i = choose|i: int|
                0 <= i < rest.len() && broken_at(#[trigger] rest[i], rules, e) && forall|j: int|
                    0 <= j < i ==> engine::rule_violation(
                        (#[trigger] rest[j]).dims,
                        rules[rest[j].field],
                    ) is None;
            assert(c[i + 1] == rest[i]);
            assert forall|j: int| 0 <= j < i + 1 implies engine::rule_violation(
                (#[trigger] c[j]).dims,
                rules[c[j].field],
            ) is None by {
                if j > 0 {
                    assert(c[j] == rest[j - 1]);
                }
            }
        }
    }
}

/// The entry breaks the rule for its field in the way that the error says.
pub open spec fn broken_at(entry: Collected, rules: Map<u32, ShapeRule>, e: WalkError) -> bool {
    e matches WalkError::ShapeRuleViolation { field_number, reason } && field_number
        == rules[entry.field].field_number && engine::rule_violation(
        entry.dims,
        rules[entry.field],
    ) == Some(reason)
}

/// The packet gets to the point where its message is walked: it parses, its addresses
/// are not blocked, its port is allowed, and the policy has rules for payloads.
pub open spec fn is_walked(buf: Seq<u8>, policy: DynamicPolicy) -> bool {
    &&& grpc::parse_error(buf, engine::dst_port(buf)) is None
    &&& !policy.blocked_ips@.contains(engine::src_ip(buf).bits)
    &&& !policy.blocked_ips@.contains(engine::dst_ip(buf).bits)
    &&& policy.allowed_ports matches Some(ports) ==> ports@.contains(engine::dst_port(buf))
    &&& policy.field_allow_list is Some || !policy.shape_rules@.is_empty()
}

/// The message of the packet is `m`, and the walk can get through it.
pub open spec fn carries(buf: Seq<u8>, m: Message, policy: DynamicPolicy) -> bool {
    &&& stands_at(buf, grpc::payload_offset(buf) + 14, encoded(m))
    &&& grpc::grpc_message_len(buf) == encoded(m).len()
    &&& buf.len() < 0x8000_0000_0000_0000
    &&& sound(m, policy.shape_rules@.dom())
    &&& narrow(m, policy.max_varint_bytes as int)
    &&& policy.max_varint_bytes >= 1
    &&& height(m) <= policy.max_recursion_depth
    &&& has_room(Seq::empty(), m, policy.shape_rules@.dom())
}

/// The reason for blocking a packet with the message `m` is true: `field` stands in the
/// message, and its numbers break the rule for it as the reason says.
pub open spec fn true_block(m: Message, policy: DynamicPolicy, reason: BlockReason) -> bool {
    let (field, violation) = match reason {
        BlockReason::ShapeDimensionTooSmall { field, got, limit } => (
            field,
            RuleViolationReason::DimensionTooSmall { got, limit },
        ),
        BlockReason::ShapeDimensionLimitExceeded { field, got, limit } => (
            field,
            RuleViolationReason::DimensionTooLarge { got, limit },
        ),
        BlockReason::TensorSizeLimitExceeded { field, got, limit } => (
            field,
            RuleViolationReason::TensorSizeExceeded { got, limit },
        ),
        BlockReason::ExactShapeMismatch { field } => (
            field,
            RuleViolationReason::ExactShapeMismatch,
        ),
        BlockReason::DimensionBoundViolation { field, index, val, min, max } => (
            field,
            RuleViolationReason::DimensionBoundViolation { index, val, min, max },
        ),
        _ => (0, RuleViolationReason::ExactShapeMismatch),
    };
    let is_shape = reason is ShapeDimensionTooSmall || reason is ShapeDimensionLimitExceeded
        || reason is TensorSizeLimitExceeded || reason is ExactShapeMismatch
        || reason is DimensionBoundViolation;
    &&& is_shape
    &&& top_fields(m).contains(field)
    &&& policy.shape_rules@.contains_key(field)
    &&& true_reason(top_values(m, field), policy.shape_rules@[field], violation)
}

/// A packet with a message whose fields are all allowed is itself allowed exactly where,
/// for every field with a rule that stands in the message, all the numbers that stand in
/// that field keep the rule. Where it is blocked, the reason is true.
pub proof fn written_message_is_judged(buf: Seq<u8>, m: Message, policy: DynamicPolicy)
    requires
        is_walked(buf, policy),
        carries(buf, m, policy),
        all_allowed(m, policy),
        forall|f: u32| #[trigger]
            policy.shape_rules@.contains_key(f) ==> policy.shape_rules@[f].field_number == f,
    ensures
        engine::verdict(buf, policy) == MatchResult::Allow <==> forall|f: u32|
            policy.shape_rules@.contains_key(f) && top_fields(m).contains(f) ==> keeps_rule(
                #[trigger] top_values(m, f),
                policy.shape_rules@[f],
            ),
        engine::verdict(buf, policy) matches MatchResult::Block(reason) ==> true_block(
            m,
            policy,
            reason,
        ),
{
    let shapes = policy.shape_rules@.dom();
    let rules = policy.shape_rules@;
    let start = grpc::payload_offset(buf) + 14;
    let end = start + encoded(m).len();
    let none = Seq::<Collected>::empty();
    let st = PolicyState { offset: start, collected: none };
    grpc::parsed_packet_is_complete(buf, engine::dst_port(buf));
    wire::height_not_negative(m);
    written_fields_are_collected(buf, st, m, end, 0, policy);
    let after = engine::walk_policy_fields(buf, st, end, 0, policy).1.collected;
    assert(fields_held(none) =~= Seq::<u32>::empty());
    let fields = met(m, shapes, Seq::empty());
    fields_agree(after, fields);
    entries_are_held_against_rules(after, rules);
    assert forall|i: int| 0 <= i < after.len() implies (#[trigger] after[i]).dims == signed(
        top_values(m, after[i].field),
    ) && top_fields(m).contains(after[i].field) && shapes.contains(after[i].field) by {
        met_means(m, shapes, Seq::empty(), after[i].field);
        assert(fields.contains(fields[i]));
        assert(held(none, after[i].field) + signed(top_values(m, after[i].field)) =~= signed(
            top_values(m, after[i].field),
        ));
    }
    assert forall|f: u32| shapes.contains(f) implies proper(#[trigger] top_values(m, f))
        && top_values(m, f).len() <= 16 by {
        top_values_are_proper(m, shapes, f);
        assert(held(none, f).len() + top_values(m, f).len() <= 16);
    }
    let walked = engine::walk_policy(buf, start, end, 0, policy).0;
    assert(walked == engine::message_walk(buf, policy));
    match engine::collected_violation(after, rules) {
        None => {
            assert forall|f: u32|
                rules.contains_key(f) && top_fields(m).contains(f) implies keeps_rule(
                #[trigger] top_values(m, f),
                rules[f],
            ) by {
                met_means(m, shapes, Seq::empty(), f);
                let i = choose|i: int| 0 <= i < fields.len() && fields[i] == f;
                assert(after[i].field == f);
                rule_is_kept(top_values(m, f), rules[f]);
            }
        },
        Some(e) => {
            let i = choose|i: int| 0 <= i < after.len() && broken_at(#[trigger] after[i], rules, e);
            let f = after[i].field;
            rule_is_kept(top_values(m, f), rules[f]);
            assert(!keeps_rule(top_values(m, f), rules[f]));
            let reason = e->ShapeRuleViolation_reason;
            assert(true_reason(top_values(m, f), rules[f], reason));
        },
    }
}

/// The field at this place may not stand there, and all before it may.
pub open spec fn is_first_disallowed(m: Message, policy: DynamicPolicy, i: int) -> bool {
    &&& 0 <= i < top_fields(m).len()
    &&& policy.field_allow_list is Some
    &&& !policy.field_allow_list->0@.contains(top_fields(m)[i])
    &&& forall|j: int|
        0 <= j < i ==> policy.field_allow_list->0@.contains(#[trigger] top_fields(m)[j])
}

proof fn disallowed_in_rest(m: Message, field: u32, rest: Message, policy: DynamicPolicy, i: int)
    requires
        is_first_disallowed(m, policy, i),
        top_fields(m) == seq![field] + top_fields(rest),
    ensures
        i == 0 <==> !policy.field_allow_list->0@.contains(field),
        i == 0 ==> top_fields(m)[i] == field,
        i > 0 ==> is_first_disallowed(rest, policy, i - 1) && top_fields(rest)[i - 1] == top_fields(
            m,
        )[i],
{
    assert(top_fields(m)[0] == field);
    if i > 0 {
        assert(policy.field_allow_list->0@.contains(top_fields(m)[0]));
        assert forall|j: int| 0 <= j < i - 1 implies policy.field_allow_list->0@.contains(
            #[trigger] top_fields(rest)[j],
        ) by {
            assert(top_fields(m)[j + 1] == top_fields(rest)[j]);
        }
    }
}

/// The walk of a message at the top level ends at the first field that may not stand
/// there.
proof fn disallowed_field_ends_the_walk(
    buf: Seq<u8>,
    st: PolicyState,
    m: Message,
    end: int,
    policy: DynamicPolicy,
    i: int,
)
    requires
        stands_at(buf, st.offset, encoded(m)),
        end == st.offset + encoded(m).len(),
        buf.len() < 0x8000_0000_0000_0000,
        sound(m, policy.shape_rules@.dom()),
        narrow(m, policy.max_varint_bytes as int),
        policy.max_varint_bytes >= 1,
        height(m) <= policy.max_recursion_depth,
        is_first_disallowed(m, policy, i),
        kept(st.collected, policy.shape_rules@.dom()),
        has_room(st.collected, m, policy.shape_rules@.dom()),
    ensures
        engine::walk_policy_fields(buf, st, end, 0, policy).0 == Err::<(), _>(
            WalkError::DisallowedField(top_fields(m)[i]),
        ),
    decreases m,
{
    let shapes = policy.shape_rules@.dom();
    let c = st.collected;
    let none = Seq::<u8>::empty();
    match m {
        Message::End => {},
        Message::Number { field, value, rest } => {
            let behind = encoded(*rest);
            let (ok, next) = number_is_passed(buf, st, field, value, behind, end, 0, policy);
            disallowed_in_rest(m, field, *rest, policy, i);
            if i > 0 {
                if shapes.contains(field) {
                    met_grows(*rest, shapes, noted(fields_held(c), field));
                    assert(held(c, field).len() + top_values(m, field).len() <= 16);
                    room_is_left(c, next.collected, field, seq![value], *rest, m, shapes);
                } else {
                    assert forall|f: u32| shapes.contains(f) implies #[trigger] held(c, f).len()
                        + top_values(*rest, f).len() <= 16 by {
                        assert(top_values(m, f) == top_values(*rest, f));
                    }
                }
                disallowed_field_ends_the_walk(buf, next, *rest, end, policy, i - 1);
            }
        },
        Message::Fixed { field, bytes, rest } => {
            let next = fixed_is_passed(buf, st, field, bytes, encoded(*rest), end, 0, policy);
            disallowed_in_rest(m, field, *rest, policy, i);
            if i > 0 {
                same_room(c, *rest, m, shapes);
                disallowed_field_ends_the_walk(buf, next, *rest, end, policy, i - 1);
            }
        },
        Message::Numbers { field, values, rest } => {
            let behind = encoded(*rest);
            met_grows(*rest, shapes, noted(fields_held(c), field));
            assert(held(c, field).len() + top_values(m, field).len() <= 16);
            let (ok, next) = row_is_passed(buf, st, field, values, behind, end, 0, policy);
            disallowed_in_rest(m, field, *rest, policy, i);
            if i > 0 {
                room_is_left(c, next.collected, field, values, *rest, m, shapes);
                disallowed_field_ends_the_walk(buf, next, *rest, end, policy, i - 1);
            }
        },
        Message::Nested { field, content, rest } => {
            let inner = encoded(*content);
            let start = content_is_passed(buf, st, field, inner, encoded(*rest), end, 0, policy);
            disallowed_in_rest(m, field, *rest, policy, i);
            if i > 0 {
                let stop = start + inner.len();
                assert(inner + none =~= inner);
                shallow_message_is_not_too_deep(buf, start, *content, none, stop, 1, policy);
                same_room(c, *rest, m, shapes);
                let next = PolicyState { offset: stop, ..st };
                disallowed_field_ends_the_walk(buf, next, *rest, end, policy, i - 1);
            }
        },
        Message::Text { field, start: opening, tail, rest } => {
            let inner = encoded(*opening) + tail;
            let start = content_is_passed(buf, st, field, inner, encoded(*rest), end, 0, policy);
            disallowed_in_rest(m, field, *rest, policy, i);
            if i > 0 {
                let stop = start + inner.len();
                shallow_message_is_not_too_deep(buf, start, *opening, tail, stop, 1, policy);
                same_room(c, *rest, m, shapes);
                let next = PolicyState { offset: stop, ..st };
                disallowed_field_ends_the_walk(buf, next, *rest, end, policy, i - 1);
            }
        },
    }
}

/// A packet with a field at the top level that is not on the allow-list is blocked for
/// the first such field. Fields of nested messages do not count.
pub proof fn disallowed_field_is_blocked(
    buf: Seq<u8>,
    m: Message,
    policy: DynamicPolicy,
    i: int,
)
    requires
        is_walked(buf, policy),
        carries(buf, m, policy),
        is_first_disallowed(m, policy, i),
    ensures
        engine::verdict(buf, policy) == MatchResult::Block(
            BlockReason::DisallowedField(top_fields(m)[i]),
        ),
{
    let start = grpc::payload_offset(buf) + 14;
    let end = start + encoded(m).len();
    let none = Seq::<Collected>::empty();
    let st = PolicyState { offset: start, collected: none };
    grpc::parsed_packet_is_complete(buf, engine::dst_port(buf));
    wire::height_not_negative(m);
    disallowed_field_ends_the_walk(buf, st, m, end, policy, i);
    let walked = engine::walk_policy(buf, start, end, 0, policy).0;
    assert(walked == engine::message_walk(buf, policy));
}

/// A walk whose fields can all be read comes to the end of the message.
pub proof fn policy_walk_comes_to_the_end(
    buf: Seq<u8>,
    st: PolicyState,
    end: int,
    depth: int,
    policy: DynamicPolicy,
)
    requires
        0 <= st.offset,
        engine::walk_policy_fields(buf, st, end, depth, policy).0 is Ok,
    ensures
        end <= engine::walk_policy_fields(buf, st, end, depth, policy).1.offset,
    decreases protobuf::left(st.offset, end),
{
    let max = policy.max_varint_bytes as int;
    let reach = buf.take(end);
    if st.offset < end {
        protobuf::varint_bounds(reach, st.offset, max);
        let (tag, at) = protobuf::varint(reach, st.offset, max);
        let here = PolicyState { offset: at, ..st };
        let field = protobuf::tag_field(tag->Ok_0) as u32;
        let wire_type = protobuf::tag_wire_type(tag->Ok_0);
        protobuf::varint_bounds(reach, at, max);
        protobuf::skipped_bounds(reach, at, wire_type, max);
        if policy.shape_rules@.contains_key(field) {
            engine::collect_field_forward(buf, here, end, field, wire_type, max);
            let next = engine::collect_field(buf, here, end, field, wire_type, max).1;
            policy_walk_comes_to_the_end(buf, next, end, depth, policy);
        } else if wire_type == 2 {
            let stop = protobuf::delimited(reach, at, end, max).0->Ok_0;
            let next = PolicyState { offset: stop, ..st };
            policy_walk_comes_to_the_end(buf, next, end, depth, policy);
        } else {
            let next = PolicyState {
                offset: protobuf::skipped(reach, at, wire_type, max).1,
                ..st
            };
            policy_walk_comes_to_the_end(buf, next, end, depth, policy);
        }
    }
}

/// A field that cannot be read ends the walk, and the error says why: a wire type that
/// no field has, a shape that is no number, a content that goes beyond the end of the
/// message, a dimension that is zero or one too many, one field with a rule too many, a
/// message nested too deep.
pub proof fn flawed_field_ends_the_walk(
    buf: Seq<u8>,
    st: PolicyState,
    end: int,
    depth: int,
    policy: DynamicPolicy,
    field: u32,
    wire_type: int,
)
    requires
        stands_at(buf.take(end), st.offset, tag_bytes(field, wire_type)),
        0 <= wire_type < 8,
        tag_bytes(field, wire_type).len() <= policy.max_varint_bytes,
        st.offset < end <= buf.len(),
        st.collected.len() <= 16,
        depth == 0 && policy.field_allow_list is Some ==> policy.field_allow_list->0@.contains(
            field,
        ),
    ensures
        ({
            let r = engine::walk_policy_fields(buf, st, end, depth, policy).0;
            let at = st.offset + tag_bytes(field, wire_type).len();
            let max = policy.max_varint_bytes as int;
            let reach = buf.take(end);
            let is_shape = policy.shape_rules@.contains_key(field);
            let full = is_shape && noted(fields_held(st.collected), field).len() > 16;
            let fails = |e: ProtoError| r == Err::<(), _>(WalkError::Proto(e));
            &&& full ==> fails(ProtoError::ShapeDimensionLimit)
            &&& !full ==> {
                &&& wire_type == 3 || wire_type == 4 || wire_type == 6 || wire_type == 7 ==> fails(
                    ProtoError::InvalidWireType,
                )
                &&& is_shape && wire_type != 0 && wire_type != 2 ==> fails(
                    ProtoError::InvalidWireType,
                )
                &&& !is_shape && wire_type == 1 && end < at + 8 ==> fails(
                    ProtoError::BufferUnderflow,
                )
                &&& !is_shape && wire_type == 5 && end < at + 4 ==> fails(
                    ProtoError::BufferUnderflow,
                )
                &&& wire_type == 2 ==> forall|len: nat|
                    (#[trigger] stands_at(reach, at, varint_bytes(len)) && varint_bytes(len).len()
                        <= max && len < 0x8000_0000_0000_0000) ==> {
                        &&& at + varint_bytes(len).len() + len > end ==> fails(
                            ProtoError::BufferUnderflow,
                        )
                        &&& at + varint_bytes(len).len() + len <= end && !is_shape && depth
                            == policy.max_recursion_depth ==> fails(ProtoError::RecursionLimit)
                    }
                &&& is_shape && wire_type == 0 ==> forall|n: nat|
                    (#[trigger] stands_at(reach, at, varint_bytes(n)) && varint_bytes(n).len()
                        <= max && n < 0x8000_0000_0000_0000) ==> {
                        &&& held(st.collected, field).len() >= 16 ==> fails(
                            ProtoError::ShapeDimensionLimit,
                        )
                        &&& held(st.collected, field).len() < 16 && n == 0 ==> fails(
                            ProtoError::ShapeValueInvalid,
                        )
                    }
            }
        }),
{
    let at = st.offset + tag_bytes(field, wire_type).len();
    let max = policy.max_varint_bytes as int;
    let reach = buf.take(end);
    let c = st.collected;
    let r = engine::walk_policy_fields(buf, st, end, depth, policy).0;
    let is_shape = policy.shape_rules@.contains_key(field);
    wire::tag_round_trip(reach, st.offset, field, wire_type, max);
    slot_finds(c, field);
    fields_agree(c, fields_held(c));
    let full = is_shape && noted(fields_held(c), field).len() > 16;
    if !full && wire_type == 2 {
        assert forall|len: nat|
            (#[trigger] stands_at(reach, at, varint_bytes(len)) && varint_bytes(len).len() <= max
                && len < 0x8000_0000_0000_0000) implies {
            &&& at + varint_bytes(len).len() + len > end ==> r == Err::<(), _>(
                WalkError::Proto(ProtoError::BufferUnderflow),
            )
            &&& at + varint_bytes(len).len() + len <= end && !is_shape && depth
                == policy.max_recursion_depth ==> r == Err::<(), _>(
                WalkError::Proto(ProtoError::RecursionLimit),
            )
        } by {
            wire::varint_round_trip(reach, at, len, max);
            let start = at + varint_bytes(len).len();
            if depth == policy.max_recursion_depth {
                assert(engine::walk_policy(buf, start, start + len, depth + 1, policy).0
                    == too_deep());
            }
        }
    }
    if !full && wire_type == 0 && is_shape {
        assert forall|n: nat|
            (#[trigger] stands_at(reach, at, varint_bytes(n)) && varint_bytes(n).len() <= max && n
                < 0x8000_0000_0000_0000) implies {
            &&& held(c, field).len() >= 16 ==> r == Err::<(), _>(
                WalkError::Proto(ProtoError::ShapeDimensionLimit),
            )
            &&& held(c, field).len() < 16 && n == 0 ==> r == Err::<(), _>(
                WalkError::Proto(ProtoError::ShapeValueInvalid),
            )
        } by {
            wire::varint_round_trip(reach, at, n, max);
        }
    }
}

} // verus!
