//! Matching a packet against a policy.
use crate::endian;
use crate::endian::join_u16;
use crate::grpc;
use crate::grpc::parse_grpc_packet;
use crate::policy::{DimensionBound, DynamicPolicy, Ipv4Addr, ShapeRule};
use crate::protobuf;
use crate::protobuf::{element_product, read_delimited, read_varint, skip_field, ProtoError};
use vstd::prelude::*;

verus! {

/// The verdict on a packet.
#[derive(Debug, Clone, Copy, PartialEq, Eq, Structural)]
pub enum MatchResult {
    Allow,
    Block(BlockReason),
}

/// Why a packet is blocked.
#[allow(inconsistent_fields)]
#[derive(Debug, Clone, Copy, PartialEq, Eq, Structural)]
pub enum BlockReason {
    /// The packet is truncated or not of the kind that the policy speaks of.
    InvalidPacket,
    /// The source or destination address is blocked.
    BlockedIP(Ipv4Addr),
    /// The destination port is not allowed.
    BlockedPort(u16),
    /// A field at the top level is not on the allow-list.
    DisallowedField(u32),
    /// The payload is not valid Protobuf.
    InvalidProto(ProtoError),
    /// The shape has too many dimensions.
    ShapeDimensionLimitExceeded { field: u32, got: usize, limit: usize },
    /// The shape has too few dimensions.
    ShapeDimensionTooSmall { field: u32, got: usize, limit: usize },
    /// The tensor has too many elements.
    TensorSizeLimitExceeded { field: u32, got: u64, limit: u64 },
    /// The shape is none of those that are allowed.
    ExactShapeMismatch { field: u32 },
    /// A dimension is out of its bounds.
    DimensionBoundViolation {
        field: u32,
        index: usize,
        val: i64,
        min: Option<i64>,
        max: Option<i64>,
    },
}

/// Why the walk through a payload ended early.
#[derive(Debug, Clone, Copy, PartialEq, Eq, Structural)]
pub enum WalkError {
    Proto(ProtoError),
    DisallowedField(u32),
    ShapeRuleViolation { field_number: u32, reason: RuleViolationReason },
}

/// Which part of a shape rule a shape breaks.
#[allow(inconsistent_fields)]
#[derive(Debug, Clone, Copy, PartialEq, Eq, Structural)]
pub enum RuleViolationReason {
    DimensionTooSmall { got: usize, limit: usize },
    DimensionTooLarge { got: usize, limit: usize },
    TensorSizeExceeded { got: u64, limit: u64 },
    ExactShapeMismatch,
    DimensionBoundViolation { index: usize, val: i64, min: Option<i64>, max: Option<i64> },
}

// ---------------------------------------------------------------------------
// Shape rules
// ---------------------------------------------------------------------------

/// `shape` keeps to `bound`: the dimension at its index, if there is one, is
/// neither below the minimum nor above the maximum.
pub open spec fn within_bound(shape: Seq<i64>, bound: DimensionBound) -> bool {
    bound.index < shape.len() ==> {
        &&& bound.min matches Some(min) ==> min <= shape[bound.index as int]
        &&& bound.max matches Some(max) ==> shape[bound.index as int] <= max
    }
}

/// The first of `bounds` that `shape` does not keep to.
pub open spec fn bound_violation(shape: Seq<i64>, bounds: Seq<DimensionBound>) -> Option<
    RuleViolationReason,
>
    decreases bounds.len(),
{
    if bounds.len() == 0 {
        None
    } else if !within_bound(shape, bounds[0]) {
        Some(
            RuleViolationReason::DimensionBoundViolation {
                index: bounds[0].index,
                val: shape[bounds[0].index as int],
                min: bounds[0].min,
                max: bounds[0].max,
            },
        )
    } else {
        bound_violation(shape, bounds.skip(1))
    }
}

/// The first part of `rule` that `shape` breaks.
pub open spec fn rule_violation(shape: Seq<i64>, rule: ShapeRule) -> Option<RuleViolationReason> {
    let len = shape.len() as usize;
    if rule.min_dimensions is Some && shape.len() < rule.min_dimensions->0 {
        Some(
            RuleViolationReason::DimensionTooSmall { got: len, limit: rule.min_dimensions->0 },
        )
    } else if rule.max_dimensions is Some && shape.len() > rule.max_dimensions->0 {
        Some(
            RuleViolationReason::DimensionTooLarge { got: len, limit: rule.max_dimensions->0 },
        )
    } else if rule.max_tensor_elements is Some && shape.len() > 0 && (
        match protobuf::checked_product(shape) {
            None => true,
            Some(product) => product > rule.max_tensor_elements->0,
        }) {
        Some(
            RuleViolationReason::TensorSizeExceeded {
                got: match protobuf::checked_product(shape) {
                    None => u64::MAX,
                    Some(product) => product,
                },
                limit: rule.max_tensor_elements->0,
            },
        )
    } else if rule.exact_shapes is Some && !(exists|i: int|
        0 <= i < rule.exact_shapes->0@.len() && (#[trigger] rule.exact_shapes->0@[i])@ == shape) {
        Some(RuleViolationReason::ExactShapeMismatch)
    } else if rule.dimension_bounds is Some {
        bound_violation(shape, rule.dimension_bounds->0@)
    } else {
        None
    }
}

/// Whether two lists of dimensions are the same.
fn same_shape(a: &[i64], b: &[i64]) -> (same: bool)
    ensures
        same == (a@ == b@),
{
    if a.len() != b.len() {
        return false;
    }
    let mut i: usize = 0;
    while i < a.len()
        invariant
            i <= a@.len(),
            a@.len() == b@.len(),
            forall|j: int| 0 <= j < i ==> a@[j] == b@[j],
        decreases a@.len() - i,
    {
        if a[i] != b[i] {
            return false;
        }
        i = i + 1;
    }
    assert(a@ =~= b@);
    true
}

/// Whether a shape is on a list.
fn is_one_of(shape: &[i64], list: &Vec<Vec<i64>>) -> (found: bool)
    ensures
        found <==> exists|i: int| 0 <= i < list@.len() && (#[trigger] list@[i])@ == shape@,
{
    let mut i: usize = 0;
    while i < list.len()
        invariant
            i <= list@.len(),
            forall|j: int| 0 <= j < i ==> (#[trigger] list@[j])@ != shape@,
        decreases list@.len() - i,
    {
        if same_shape(list[i].as_slice(), shape) {
            return true;
        }
        i = i + 1;
    }
    false
}

/// The first bound that a shape does not keep to.
fn check_bounds(shape: &[i64], bounds: &Vec<DimensionBound>) -> (r: Option<RuleViolationReason>)
    ensures
        r == bound_violation(shape@, bounds@),
{
    let mut i: usize = 0;
    assert(bounds@.skip(0) =~= bounds@);
    while i < bounds.len()
        invariant
            i <= bounds@.len(),
            bound_violation(shape@, bounds@.skip(i as int)) == bound_violation(shape@, bounds@),
        decreases bounds@.len() - i,
    {
        let bound = &bounds[i];
        assert(bounds@.skip(i as int).skip(1) =~= bounds@.skip(i + 1));
        if bound.index < shape.len() {
            let val: i64 = shape[bound.index];
            let below: bool = match bound.min {
                Some(min) => val < min,
                None => false,
            };
            let above: bool = match bound.max {
                Some(max) => val > max,
                None => false,
            };
            if below || above {
                return Some(
                    RuleViolationReason::DimensionBoundViolation {
                        index: bound.index,
                        val,
                        min: bound.min,
                        max: bound.max,
                    },
                );
            }
        }
        i = i + 1;
    }
    None
}

/// Validates a shape against a rule.
pub fn validate_shape(shape: &[i64], rule: &ShapeRule) -> (r: Result<(), WalkError>)
    ensures
        match rule_violation(shape@, *rule) {
            None => r == Ok::<(), WalkError>(()),
            Some(reason) => r == Err::<(), _>(
                WalkError::ShapeRuleViolation { field_number: rule.field_number, reason },
            ),
        },
{
    let field_number: u32 = rule.field_number;
    if let Some(limit) = rule.min_dimensions {
        if shape.len() < limit {
            let reason = RuleViolationReason::DimensionTooSmall { got: shape.len(), limit };
            return Err(WalkError::ShapeRuleViolation { field_number, reason });
        }
    }
    if let Some(limit) = rule.max_dimensions {
        if shape.len() > limit {
            let reason = RuleViolationReason::DimensionTooLarge { got: shape.len(), limit };
            return Err(WalkError::ShapeRuleViolation { field_number, reason });
        }
    }
    if let Some(limit) = rule.max_tensor_elements {
        if shape.len() > 0 {
            match element_product(shape) {
                None => {
                    let reason = RuleViolationReason::TensorSizeExceeded { got: u64::MAX, limit };
                    return Err(WalkError::ShapeRuleViolation { field_number, reason });
                },
                Some(product) => {
                    if product > limit {
                        let reason = RuleViolationReason::TensorSizeExceeded { got: product, limit };
                        return Err(WalkError::ShapeRuleViolation { field_number, reason });
                    }
                },
            }
        }
    }
    if let Some(exact_shapes) = &rule.exact_shapes {
        if !is_one_of(shape, exact_shapes) {
            let reason = RuleViolationReason::ExactShapeMismatch;
            return Err(WalkError::ShapeRuleViolation { field_number, reason });
        }
    }
    if let Some(bounds) = &rule.dimension_bounds {
        if let Some(reason) = check_bounds(shape, bounds) {
            return Err(WalkError::ShapeRuleViolation { field_number, reason });
        }
    }
    Ok(())
}

// ---------------------------------------------------------------------------
// The walk
// ---------------------------------------------------------------------------

/// The dimensions that a walk has collected for one field.
pub struct Collected {
    pub field: u32,
    pub dims: Seq<i64>,
}

/// Where a walk stands: its position and what it has collected, field by field
/// in the order in which the fields were first seen.
pub struct PolicyState {
    pub offset: int,
    pub collected: Seq<Collected>,
}

/// Index of the entry for `field`; the number of entries where there is none.
pub open spec fn slot(collected: Seq<Collected>, field: u32) -> int
    decreases collected.len(),
{
    if collected.len() == 0 || collected[0].field == field {
        0
    } else {
        1 + slot(collected.skip(1), field)
    }
}

/// Makes sure that there is an entry for `field`. There is room for 16.
pub open spec fn opened(collected: Seq<Collected>, field: u32) -> (
    Result<int, WalkError>,
    Seq<Collected>,
) {
    let i = slot(collected, field);
    if i < collected.len() {
        (Ok(i), collected)
    } else if collected.len() < 16 {
        (Ok(i), collected.push(Collected { field, dims: Seq::empty() }))
    } else {
        (Err(WalkError::Proto(ProtoError::ShapeDimensionLimit)), collected)
    }
}

/// Adds one dimension to the entry at `i`, which has room for 16.
pub open spec fn appended(collected: Seq<Collected>, i: int, dim: u64) -> (
    Result<(), WalkError>,
    Seq<Collected>,
) {
    if collected[i].dims.len() >= 16 {
        (Err(WalkError::Proto(ProtoError::ShapeDimensionLimit)), collected)
    } else if dim == 0 {
        (Err(WalkError::Proto(ProtoError::ShapeValueInvalid)), collected)
    } else {
        let grown = Collected { dims: collected[i].dims.push(dim as i64), ..collected[i] };
        (Ok(()), collected.update(i, grown))
    }
}

/// Reads one varint from the bytes in reach and adds it to the entry at `i`.
pub open spec fn collect_dim(reach: Seq<u8>, st: PolicyState, i: int, max_bytes: int) -> (
    Result<(), WalkError>,
    PolicyState,
) {
    match protobuf::varint(reach, st.offset, max_bytes) {
        (Err(e), next) => (Err(WalkError::Proto(e)), PolicyState { offset: next, ..st }),
        (Ok(dim), next) => {
            let (r, collected) = appended(st.collected, i, dim);
            (r, PolicyState { offset: next, collected })
        },
    }
}

/// Reads varints from the bytes in reach while the position is before `stop`, and
/// adds them to the entry at `i`. The last one may end behind `stop`.
pub open spec fn collect_packed(
    reach: Seq<u8>,
    st: PolicyState,
    stop: int,
    i: int,
    max_bytes: int,
) -> (Result<(), WalkError>, PolicyState)
    decreases protobuf::left(st.offset, stop),
    when 0 <= st.offset && 0 <= max_bytes
{
    if st.offset >= stop {
        (Ok(()), st)
    } else {
        proof {
            protobuf::varint_bounds(reach, st.offset, max_bytes);
        }
        match collect_dim(reach, st, i, max_bytes) {
            (Err(e), next) => (Err(e), next),
            (Ok(_), next) => collect_packed(reach, next, stop, i, max_bytes),
        }
    }
}

/// Collects the content of a field that has a shape rule, in a message that ends
/// at `end`.
pub open spec fn collect_field(
    buf: Seq<u8>,
    st: PolicyState,
    end: int,
    field: u32,
    wire_type: int,
    max_bytes: int,
) -> (Result<(), WalkError>, PolicyState) {
    match opened(st.collected, field) {
        (Err(e), _) => (Err(e), st),
        (Ok(i), collected) => {
            let st = PolicyState { collected, ..st };
            if wire_type == 2 {
                match protobuf::delimited(buf.take(end), st.offset, end, max_bytes) {
                    (Err(e), next) => (
                        Err(WalkError::Proto(e)),
                        PolicyState { offset: next, ..st },
                    ),
                    (Ok(stop), next) => collect_packed(
                        buf.take(end),
                        PolicyState { offset: next, ..st },
                        stop,
                        i,
                        max_bytes,
                    ),
                }
            } else if wire_type == 0 {
                collect_dim(buf.take(end), st, i, max_bytes)
            } else {
                (Err(WalkError::Proto(ProtoError::InvalidWireType)), st)
            }
        },
    }
}

/// Nothing that collects packed dimensions reads backwards.
proof fn collect_packed_forward(
    reach: Seq<u8>,
    st: PolicyState,
    stop: int,
    i: int,
    max_bytes: int,
)
    requires
        0 <= st.offset,
        0 <= max_bytes,
    ensures
        st.offset <= collect_packed(reach, st, stop, i, max_bytes).1.offset,
    decreases protobuf::left(st.offset, stop),
{
    if st.offset < stop {
        protobuf::varint_bounds(reach, st.offset, max_bytes);
        let (r, next) = collect_dim(reach, st, i, max_bytes);
        if r is Ok {
            collect_packed_forward(reach, next, stop, i, max_bytes);
        }
    }
}

/// Nothing that collects the content of a field reads backwards.
pub proof fn collect_field_forward(
    buf: Seq<u8>,
    st: PolicyState,
    end: int,
    field: u32,
    wire_type: int,
    max_bytes: int,
)
    requires
        0 <= st.offset,
        0 <= max_bytes,
    ensures
        st.offset <= collect_field(buf, st, end, field, wire_type, max_bytes).1.offset,
{
    protobuf::varint_bounds(buf.take(end), st.offset, max_bytes);
    if let (Ok(i), collected) = opened(st.collected, field) {
        if let (Ok(stop), next) = protobuf::delimited(
            buf.take(end),
            st.offset,
            end,
            max_bytes,
        ) {
            collect_packed_forward(
                buf.take(end),
                PolicyState { offset: next, collected },
                stop,
                i,
                max_bytes,
            );
        }
    }
}

/// Whether `field` may stand in a message `depth` levels down: the allow-list
/// speaks of the top level only.
pub open spec fn field_allowed(policy: DynamicPolicy, depth: int, field: u32) -> bool {
    depth == 0 && policy.field_allow_list is Some ==> policy.field_allow_list->0@.contains(field)
}

/// Walks the fields of a message that ends at `end`, `depth` levels down. Nothing
/// behind `end` is read.
///
/// A length-delimited field without a shape rule is walked as a message of its
/// own; where that walk fails, the field is taken for a string and passed over.
/// Only a message nested too deep ends the whole walk.
pub open spec fn walk_policy_fields(
    buf: Seq<u8>,
    st: PolicyState,
    end: int,
    depth: int,
    policy: DynamicPolicy,
) -> (Result<(), WalkError>, PolicyState)
    decreases protobuf::left(st.offset, end), 0int,
    when 0 <= st.offset
{
    let max_bytes = policy.max_varint_bytes as int;
    let reach = buf.take(end);
    if st.offset >= end {
        (Ok(()), st)
    } else {
        proof {
            protobuf::varint_bounds(reach, st.offset, max_bytes);
        }
        match protobuf::varint(reach, st.offset, max_bytes) {
            (Err(e), next) => (Err(WalkError::Proto(e)), PolicyState { offset: next, ..st }),
            (Ok(tag), at) => {
                let here = PolicyState { offset: at, ..st };
                let field = protobuf::tag_field(tag) as u32;
                let wire_type = protobuf::tag_wire_type(tag);
                if !field_allowed(policy, depth, field) {
                    (Err(WalkError::DisallowedField(field)), here)
                } else if policy.shape_rules@.contains_key(field) {
                    proof {
                        collect_field_forward(buf, here, end, field, wire_type, max_bytes);
                    }
                    match collect_field(buf, here, end, field, wire_type, max_bytes) {
                        (Err(e), next) => (Err(e), next),
                        (Ok(_), next) => walk_policy_fields(buf, next, end, depth, policy),
                    }
                } else if wire_type == 2 {
                    proof {
                        protobuf::varint_bounds(reach, at, max_bytes);
                    }
                    match protobuf::delimited(reach, at, end, max_bytes) {
                        (Err(e), next) => (
                            Err(WalkError::Proto(e)),
                            PolicyState { offset: next, ..st },
                        ),
                        (Ok(stop), next) => {
                            if walk_policy(buf, next, stop, depth + 1, policy).0 == Err::<(), _>(
                                WalkError::Proto(ProtoError::RecursionLimit),
                            ) {
                                (
                                    Err(WalkError::Proto(ProtoError::RecursionLimit)),
                                    PolicyState { offset: next, ..st },
                                )
                            } else {
                                walk_policy_fields(
                                    buf,
                                    PolicyState { offset: stop, ..st },
                                    end,
                                    depth,
                                    policy,
                                )
                            }
                        },
                    }
                } else {
                    proof {
                        protobuf::skipped_bounds(reach, at, wire_type, max_bytes);
                    }
                    match protobuf::skipped(reach, at, wire_type, max_bytes) {
                        (Err(e), next) => (
                            Err(WalkError::Proto(e)),
                            PolicyState { offset: next, ..st },
                        ),
                        (Ok(_), next) => walk_policy_fields(
                            buf,
                            PolicyState { offset: next, ..st },
                            end,
                            depth,
                            policy,
                        ),
                    }
                }
            },
        }
    }
}

/// The first entry that breaks the rule for its field.
pub open spec fn collected_violation(
    collected: Seq<Collected>,
    rules: Map<u32, ShapeRule>,
) -> Option<WalkError>
    decreases collected.len(),
{
    if collected.len() == 0 {
        None
    } else if !rules.contains_key(collected[0].field) {
        Some(WalkError::Proto(ProtoError::InvalidWireType))
    } else {
        let rule = rules[collected[0].field];
        match rule_violation(collected[0].dims, rule) {
            Some(reason) => Some(
                WalkError::ShapeRuleViolation { field_number: rule.field_number, reason },
            ),
            None => collected_violation(collected.skip(1), rules),
        }
    }
}

/// Walks a message that ends at `end`, `depth` levels down, then holds what was
/// collected against the shape rules.
pub open spec fn walk_policy(
    buf: Seq<u8>,
    offset: int,
    end: int,
    depth: int,
    policy: DynamicPolicy,
) -> (Result<(), WalkError>, int)
    decreases protobuf::left(offset, end), 1int,
    when 0 <= offset
{
    if depth > policy.max_recursion_depth {
        (Err(WalkError::Proto(ProtoError::RecursionLimit)), offset)
    } else if end > buf.len() {
        (Err(WalkError::Proto(ProtoError::BufferUnderflow)), offset)
    } else {
        let start = PolicyState { offset, collected: Seq::empty() };
        match walk_policy_fields(buf, start, end, depth, policy) {
            (Err(e), st) => (Err(e), st.offset),
            (Ok(_), st) => match collected_violation(st.collected, policy.shape_rules@) {
                Some(e) => (Err(e), st.offset),
                None => (Ok(()), st.offset),
            },
        }
    }
}

/// The dimensions collected for one field, in an array of fixed size.
#[derive(Clone, Copy)]
struct ShapeAccumulator {
    field_number: u32,
    shape: [i64; 16],
    len: usize,
}

/// Everything that one walk has collected, in an array of fixed size.
struct Accumulators {
    slots: [ShapeAccumulator; 16],
    used: usize,
}

impl ShapeAccumulator {
    spec fn entry(self) -> Collected {
        Collected { field: self.field_number, dims: self.shape@.take(self.len as int) }
    }
}

impl Accumulators {
    spec fn wf(self) -> bool {
        &&& self.used <= 16
        &&& forall|i: int| 0 <= i < self.used ==> (#[trigger] self.slots@[i]).len <= 16
    }

    spec fn entries(self) -> Seq<Collected> {
        Seq::new(self.used as nat, |i: int| self.slots@[i].entry())
    }

    fn new() -> (accs: Self)
        ensures
            accs.wf(),
            accs.entries() == Seq::<Collected>::empty(),
    {
        let empty = ShapeAccumulator { field_number: 0, shape: [0i64; 16], len: 0 };
        Accumulators { slots: [empty; 16], used: 0 }
    }

    /// Finds the entry for a field, or opens one.
    fn shape_accumulator(&mut self, field_number: u32) -> (r: Result<usize, WalkError>)
        requires
            old(self).wf(),
        ensures
            final(self).wf(),
            final(self).entries() == opened(old(self).entries(), field_number).1,
            match (r, opened(old(self).entries(), field_number).0) {
                (Ok(i), Ok(j)) => i == j && i < final(self).used,
                (Err(e), Err(f)) => e == f,
                _ => false,
            },
    {
        let mut i: usize = 0;
        let ghost entries = self.entries();
        assert(entries.skip(0) =~= entries);
        while i < self.used
            invariant
                self.wf(),
                self.entries() == entries,
                i <= self.used,
                slot(entries, field_number) == i + slot(entries.skip(i as int), field_number),
            decreases self.used - i,
        {
            assert(entries.skip(i as int).skip(1) =~= entries.skip(i + 1));
            assert(entries[i as int] == self.slots@[i as int].entry());
            if self.slots[i].field_number == field_number {
                return Ok(i);
            }
            i = i + 1;
        }
        if self.used >= 16 {
            return Err(WalkError::Proto(ProtoError::ShapeDimensionLimit));
        }
        self.slots[i] = ShapeAccumulator { field_number, shape: [0i64; 16], len: 0 };
        self.used = self.used + 1;
        proof {
            let grown = entries.push(Collected { field: field_number, dims: Seq::empty() });
            assert(self.slots@[i as int].entry().dims =~= Seq::<i64>::empty());
            assert(self.entries() =~= grown);
        }
        Ok(i)
    }

    /// Adds one dimension to an entry.
    fn append_shape_dim(&mut self, index: usize, dim: u64) -> (r: Result<(), WalkError>)
        requires
            old(self).wf(),
            index < old(self).used,
            dim < 0x8000_0000_0000_0000,
        ensures
            final(self).wf(),
            final(self).used == old(self).used,
            (r, final(self).entries()) == appended(old(self).entries(), index as int, dim),
    {
        let mut acc: ShapeAccumulator = self.slots[index];
        if acc.len >= 16 {
            return Err(WalkError::Proto(ProtoError::ShapeDimensionLimit));
        }
        if dim == 0 {
            return Err(WalkError::Proto(ProtoError::ShapeValueInvalid));
        }
        let ghost before = self.entries();
        let ghost dims = acc.entry().dims;
        acc.shape[acc.len] = dim as i64;
        acc.len = acc.len + 1;
        self.slots[index] = acc;
        proof {
            assert(acc.entry().dims =~= dims.push(dim as i64));
            let grown = Collected {
                dims: before[index as int].dims.push(dim as i64),
                ..before[index as int]
            };
            assert(self.entries() =~= before.update(index as int, grown));
        }
        Ok(())
    }

    /// Reads one varint and adds it to an entry.
    fn collect_dim(&mut self, reach: &[u8], offset: &mut usize, index: usize, max_bytes: usize) -> (r:
        Result<(), WalkError>)
        requires
            old(self).wf(),
            index < old(self).used,
        ensures
            final(self).wf(),
            final(self).used == old(self).used,
            (
                r,
                PolicyState { offset: *final(offset) as int, collected: final(self).entries() },
            ) == collect_dim(
                reach@,
                PolicyState { offset: *old(offset) as int, collected: old(self).entries() },
                index as int,
                max_bytes as int,
            ),
    {
        proof {
            protobuf::varint_bounds(reach@, *offset as int, max_bytes as int);
        }
        match read_varint(reach, offset, max_bytes) {
            Ok(dim) => self.append_shape_dim(index, dim),
            Err(e) => Err(WalkError::Proto(e)),
        }
    }

    /// Collects the content of a field that has a shape rule.
    fn collect_field(
        &mut self,
        buf: &[u8],
        offset: &mut usize,
        end: usize,
        field_number: u32,
        wire_type: u8,
        max_bytes: usize,
    ) -> (r: Result<(), WalkError>)
        requires
            old(self).wf(),
            end <= buf@.len(),
            *old(offset) <= end,
        ensures
            final(self).wf(),
            *final(offset) <= end,
            (
                r,
                PolicyState { offset: *final(offset) as int, collected: final(self).entries() },
            ) == collect_field(
                buf@,
                PolicyState { offset: *old(offset) as int, collected: old(self).entries() },
                end as int,
                field_number,
                wire_type as int,
                max_bytes as int,
            ),
    {
        let index: usize = match self.shape_accumulator(field_number) {
            Ok(index) => index,
            Err(e) => return Err(e),
        };
        let reach = &buf[0..end];
        proof {
            assert(reach@ =~= buf@.take(end as int));
            protobuf::varint_bounds(reach@, *offset as int, max_bytes as int);
        }
        if wire_type == 2 {
            let stop: usize = match read_delimited(reach, offset, end, max_bytes) {
                Ok(stop) => stop,
                Err(e) => return Err(WalkError::Proto(e)),
            };
            let ghost total = collect_packed(
                reach@,
                PolicyState { offset: *offset as int, collected: self.entries() },
                stop as int,
                index as int,
                max_bytes as int,
            );
            while *offset < stop
                invariant
                    self.wf(),
                    index < self.used,
                    reach@.len() == end,
                    *offset <= end,
                    collect_packed(
                        reach@,
                        PolicyState { offset: *offset as int, collected: self.entries() },
                        stop as int,
                        index as int,
                        max_bytes as int,
                    ) == total,
                    stop <= end,
                    total == collect_field(
                        buf@,
                        PolicyState {
                            offset: *old(offset) as int,
                            collected: old(self).entries(),
                        },
                        end as int,
                        field_number,
                        wire_type as int,
                        max_bytes as int,
                    ),
                decreases end - *offset,
            {
                proof {
                    protobuf::varint_bounds(reach@, *offset as int, max_bytes as int);
                }
                match self.collect_dim(reach, offset, index, max_bytes) {
                    Ok(_) => {},
                    Err(e) => return Err(e),
                }
            }
            Ok(())
        } else if wire_type == 0 {
            self.collect_dim(reach, offset, index, max_bytes)
        } else {
            Err(WalkError::Proto(ProtoError::InvalidWireType))
        }
    }

    /// Holds what was collected against the shape rules.
    fn check(&self, policy: &DynamicPolicy) -> (r: Result<(), WalkError>)
        requires
            self.wf(),
        ensures
            match collected_violation(self.entries(), policy.shape_rules@) {
                None => r == Ok::<(), WalkError>(()),
                Some(e) => r == Err::<(), _>(e),
            },
    {
        broadcast use vstd::std_specs::hash::group_hash_axioms;

        let mut i: usize = 0;
        let ghost entries = self.entries();
        let ghost rules = policy.shape_rules@;
        assert(entries.skip(0) =~= entries);
        while i < self.used
            invariant
                self.wf(),
                entries == self.entries(),
                rules == policy.shape_rules@,
                i <= self.used,
                collected_violation(entries.skip(i as int), rules) == collected_violation(
                    entries,
                    rules,
                ),
            decreases self.used - i,
        {
            let acc: ShapeAccumulator = self.slots[i];
            proof {
                assert(entries.skip(i as int).skip(1) =~= entries.skip(i + 1));
                assert(entries[i as int] == acc.entry());
            }
            let rule = match policy.shape_rules.get(&acc.field_number) {
                Some(rule) => rule,
                None => return Err(WalkError::Proto(ProtoError::InvalidWireType)),
            };
            let dims = &acc.shape[0..acc.len];
            assert(dims@ =~= acc.entry().dims);
            match validate_shape(dims, rule) {
                Ok(_) => {},
                Err(e) => return Err(e),
            }
            i = i + 1;
        }
        Ok(())
    }
}

/// Walks a message and the messages nested in it, enforcing the allow-list and
/// the shape rules.
pub fn walk_message_with_policy(
    buf: &[u8],
    offset: &mut usize,
    end_offset: usize,
    depth: usize,
    policy: &DynamicPolicy,
) -> (r: Result<(), WalkError>)
    requires
        policy.max_recursion_depth < usize::MAX || depth + protobuf::left(
            *old(offset) as int,
            end_offset as int,
        ) <= usize::MAX,
    ensures
        (r, *final(offset) as int) == walk_policy(
            buf@,
            *old(offset) as int,
            end_offset as int,
            depth as int,
            *policy,
        ),
    decreases protobuf::left(*old(offset) as int, end_offset as int),
{
    broadcast use vstd::std_specs::hash::group_hash_axioms;

    if depth > policy.max_recursion_depth {
        return Err(WalkError::Proto(ProtoError::RecursionLimit));
    }
    if end_offset > buf.len() {
        return Err(WalkError::Proto(ProtoError::BufferUnderflow));
    }
    let reach = &buf[0..end_offset];
    assert(reach@ =~= buf@.take(end_offset as int));
    let mut accs = Accumulators::new();
    let ghost total = walk_policy_fields(
        buf@,
        PolicyState { offset: *offset as int, collected: accs.entries() },
        end_offset as int,
        depth as int,
        *policy,
    );
    while *offset < end_offset
        invariant
            depth <= policy.max_recursion_depth,
            policy.max_recursion_depth < usize::MAX || depth + protobuf::left(
                *old(offset) as int,
                end_offset as int,
            ) <= usize::MAX,
            end_offset <= buf@.len(),
            reach@ == buf@.take(end_offset as int),
            *old(offset) <= *offset,
            accs.wf(),
            walk_policy_fields(
                buf@,
                PolicyState { offset: *offset as int, collected: accs.entries() },
                end_offset as int,
                depth as int,
                *policy,
            ) == total,
            total == walk_policy_fields(
                buf@,
                PolicyState { offset: *old(offset) as int, collected: Seq::empty() },
                end_offset as int,
                depth as int,
                *policy,
            ),
        decreases protobuf::left(*offset as int, end_offset as int),
    {
        let max_bytes: usize = policy.max_varint_bytes;
        proof {
            protobuf::varint_bounds(reach@, *offset as int, max_bytes as int);
        }
        let tag: u64 = match read_varint(reach, offset, max_bytes) {
            Ok(tag) => tag,
            Err(e) => return Err(WalkError::Proto(e)),
        };
        let field_number: u32 = (tag >> 3) as u32;
        let wire_type: u8 = (tag & 0x07) as u8;
        proof {
            protobuf::tag_parts(tag);
            protobuf::varint_bounds(reach@, *offset as int, max_bytes as int);
            protobuf::skipped_bounds(reach@, *offset as int, wire_type as int, max_bytes as int);
            collect_field_forward(
                buf@,
                PolicyState { offset: *offset as int, collected: accs.entries() },
                end_offset as int,
                field_number,
                wire_type as int,
                max_bytes as int,
            );
        }
        if depth == 0 {
            if let Some(allow_list) = &policy.field_allow_list {
                if !allow_list.contains(&field_number) {
                    return Err(WalkError::DisallowedField(field_number));
                }
            }
        }
        if policy.shape_rules.contains_key(&field_number) {
            match accs.collect_field(buf, offset, end_offset, field_number, wire_type, max_bytes) {
                Ok(_) => {},
                Err(e) => return Err(e),
            }
        } else if wire_type == 2 {
            let sub_end: usize = match read_delimited(reach, offset, end_offset, max_bytes) {
                Ok(stop) => stop,
                Err(e) => return Err(WalkError::Proto(e)),
            };
            let mut sub_offset: usize = *offset;
            match walk_message_with_policy(buf, &mut sub_offset, sub_end, depth + 1, policy) {
                Err(WalkError::Proto(ProtoError::RecursionLimit)) => {
                    return Err(WalkError::Proto(ProtoError::RecursionLimit));
                },
                _ => {
                    *offset = sub_end;
                },
            }
        } else {
            match skip_field(reach, offset, wire_type, max_bytes) {
                Ok(_) => {},
                Err(e) => return Err(WalkError::Proto(e)),
            }
        }
    }
    accs.check(policy)
}

// ---------------------------------------------------------------------------
// Packets
// ---------------------------------------------------------------------------

/// The source address of an IPv4 packet.
pub open spec fn src_ip(buf: Seq<u8>) -> Ipv4Addr {
    Ipv4Addr { bits: endian::be32(buf.subrange(26, 30)) as u32 }
}

/// The destination address of an IPv4 packet.
pub open spec fn dst_ip(buf: Seq<u8>) -> Ipv4Addr {
    Ipv4Addr { bits: endian::be32(buf.subrange(30, 34)) as u32 }
}

/// The destination port of a TCP packet.
pub open spec fn dst_port(buf: Seq<u8>) -> u16 {
    endian::be16(buf.skip(grpc::tcp_offset(buf) + 2)) as u16
}

/// Whether a policy says anything of the payload.
pub open spec fn has_rules(policy: DynamicPolicy) -> bool {
    policy.field_allow_list is Some || !policy.shape_rules@.is_empty()
}

/// Why a walk that ended early blocks the packet.
pub open spec fn block_reason(e: WalkError) -> BlockReason {
    match e {
        WalkError::Proto(e) => BlockReason::InvalidProto(e),
        WalkError::DisallowedField(field) => BlockReason::DisallowedField(field),
        WalkError::ShapeRuleViolation { field_number: field, reason } => match reason {
            RuleViolationReason::DimensionTooSmall { got, limit } =>
                BlockReason::ShapeDimensionTooSmall { field, got, limit },
            RuleViolationReason::DimensionTooLarge { got, limit } =>
                BlockReason::ShapeDimensionLimitExceeded { field, got, limit },
            RuleViolationReason::TensorSizeExceeded { got, limit } =>
                BlockReason::TensorSizeLimitExceeded { field, got, limit },
            RuleViolationReason::ExactShapeMismatch => BlockReason::ExactShapeMismatch { field },
            RuleViolationReason::DimensionBoundViolation { index, val, min, max } =>
                BlockReason::DimensionBoundViolation { field, index, val, min, max },
        },
    }
}

/// The outcome of walking the gRPC message in a packet.
pub open spec fn message_walk(buf: Seq<u8>, policy: DynamicPolicy) -> Result<(), WalkError> {
    let start = grpc::payload_offset(buf) + 14;
    walk_policy(buf, start, start + grpc::grpc_message_len(buf), 0, policy).0
}

/// The verdict on a packet.
pub open spec fn verdict(buf: Seq<u8>, policy: DynamicPolicy) -> MatchResult {
    if buf.len() < 34 || endian::be16(buf.skip(12)) != 0x0800 {
        MatchResult::Block(BlockReason::InvalidPacket)
    } else if policy.blocked_ips@.contains(src_ip(buf).bits) {
        MatchResult::Block(BlockReason::BlockedIP(src_ip(buf)))
    } else if policy.blocked_ips@.contains(dst_ip(buf).bits) {
        MatchResult::Block(BlockReason::BlockedIP(dst_ip(buf)))
    } else if (policy.allowed_ports is Some || has_rules(policy)) && (buf[23] != 6
        || grpc::ip_hdr_len(buf) < 20 || buf.len() < grpc::tcp_offset(buf) + 4) {
        MatchResult::Block(BlockReason::InvalidPacket)
    } else if policy.allowed_ports is Some && !policy.allowed_ports->0@.contains(dst_port(buf)) {
        MatchResult::Block(BlockReason::BlockedPort(dst_port(buf)))
    } else if !has_rules(policy) {
        MatchResult::Allow
    } else if grpc::parse_error(buf, dst_port(buf)) is Some {
        MatchResult::Block(BlockReason::InvalidPacket)
    } else {
        match message_walk(buf, policy) {
            Ok(_) => MatchResult::Allow,
            Err(e) => MatchResult::Block(block_reason(e)),
        }
    }
}

/// Why a walk that ended early blocks the packet.
pub fn walk_error_reason(e: WalkError) -> (reason: BlockReason)
    ensures
        reason == block_reason(e),
{
    match e {
        WalkError::Proto(e) => BlockReason::InvalidProto(e),
        WalkError::DisallowedField(field) => BlockReason::DisallowedField(field),
        WalkError::ShapeRuleViolation { field_number: field, reason } => match reason {
            RuleViolationReason::DimensionTooSmall { got, limit } =>
                BlockReason::ShapeDimensionTooSmall { field, got, limit },
            RuleViolationReason::DimensionTooLarge { got, limit } =>
                BlockReason::ShapeDimensionLimitExceeded { field, got, limit },
            RuleViolationReason::TensorSizeExceeded { got, limit } =>
                BlockReason::TensorSizeLimitExceeded { field, got, limit },
            RuleViolationReason::ExactShapeMismatch => BlockReason::ExactShapeMismatch { field },
            RuleViolationReason::DimensionBoundViolation { index, val, min, max } =>
                BlockReason::DimensionBoundViolation { field, index, val, min, max },
        },
    }
}

/// Matches a packet against a policy.
pub fn match_packet(buf: &[u8], policy: &DynamicPolicy) -> (r: MatchResult)
    ensures
        r == verdict(buf@, *policy),
{
    broadcast use vstd::std_specs::hash::group_hash_axioms;

    if buf.len() < 34 {
        return MatchResult::Block(BlockReason::InvalidPacket);
    }
    if join_u16(buf[12], buf[13]) != 0x0800 {
        return MatchResult::Block(BlockReason::InvalidPacket);
    }
    let src = Ipv4Addr::new(buf[26], buf[27], buf[28], buf[29]);
    let dst = Ipv4Addr::new(buf[30], buf[31], buf[32], buf[33]);
    if policy.blocked_ips.contains(&src.bits) {
        return MatchResult::Block(BlockReason::BlockedIP(src));
    }
    if policy.blocked_ips.contains(&dst.bits) {
        return MatchResult::Block(BlockReason::BlockedIP(dst));
    }

    let has_rules: bool = policy.field_allow_list.is_some() || !policy.shape_rules.is_empty();
    if !has_rules && policy.allowed_ports.is_none() {
        return MatchResult::Allow;
    }
    if buf[23] != 6 {
        return MatchResult::Block(BlockReason::InvalidPacket);
    }
    let v: u8 = buf[14];
    assert(v & 0x0f == v % 16) by (bit_vector);
    let ihl: usize = (v & 0x0f) as usize;
    if ihl < 5 {
        return MatchResult::Block(BlockReason::InvalidPacket);
    }
    let tcp_start: usize = 14 + ihl * 4;
    if buf.len() < tcp_start + 4 {
        return MatchResult::Block(BlockReason::InvalidPacket);
    }
    let port: u16 = join_u16(buf[tcp_start + 2], buf[tcp_start + 3]);
    if let Some(allowed_ports) = &policy.allowed_ports {
        if !allowed_ports.contains(&port) {
            return MatchResult::Block(BlockReason::BlockedPort(port));
        }
    }
    if !has_rules {
        return MatchResult::Allow;
    }

    let parsed = match parse_grpc_packet(buf, port) {
        Ok(parsed) => parsed,
        Err(_) => return MatchResult::Block(BlockReason::InvalidPacket),
    };
    proof {
        parsed.offsets_match(buf@);
    }
    let mut offset: usize = parsed.payload_offset() + 14;
    let end: usize = offset + parsed.grpc.message_len as usize;
    match walk_message_with_policy(buf, &mut offset, end, 0, policy) {
        Ok(_) => MatchResult::Allow,
        Err(e) => MatchResult::Block(walk_error_reason(e)),
    }
}

// ---------------------------------------------------------------------------
// Laws
// ---------------------------------------------------------------------------

/// A packet from or to a blocked address is never allowed, whatever else the
/// policy says.
pub proof fn blocked_address_is_blocked(buf: Seq<u8>, policy: DynamicPolicy)
    requires
        buf.len() >= 34,
        policy.blocked_ips@.contains(src_ip(buf).bits) || policy.blocked_ips@.contains(
            dst_ip(buf).bits,
        ),
    ensures
        verdict(buf, policy) is Block,
{
}

/// An allowed packet is an IPv4 packet of at least 34 bytes between addresses
/// that are not blocked. Where the policy limits ports or payloads, it is a TCP
/// packet to an allowed port; where it has rules for payloads, the packet parses
/// as gRPC and its message passes the walk.
pub proof fn allowed_means(buf: Seq<u8>, policy: DynamicPolicy)
    requires
        verdict(buf, policy) is Allow,
    ensures
        buf.len() >= 34,
        endian::be16(buf.skip(12)) == 0x0800,
        !policy.blocked_ips@.contains(src_ip(buf).bits),
        !policy.blocked_ips@.contains(dst_ip(buf).bits),
        policy.allowed_ports is Some || has_rules(policy) ==> buf[23] == 6,
        policy.allowed_ports matches Some(ports) ==> ports@.contains(dst_port(buf)),
        has_rules(policy) ==> {
            &&& grpc::parse_error(buf, dst_port(buf)) is None
            &&& message_walk(buf, policy) is Ok
        },
{
}

/// A policy without limits allows every IPv4 packet that is long enough.
pub proof fn empty_policy_allows(buf: Seq<u8>, policy: DynamicPolicy)
    requires
        buf.len() >= 34,
        endian::be16(buf.skip(12)) == 0x0800,
        policy.blocked_ips@.is_empty(),
        policy.allowed_ports is None,
        !has_rules(policy),
    ensures
        verdict(buf, policy) == MatchResult::Allow,
{
}

/// A shape that breaks no part of a rule has a rank between its limits and no
/// more elements than allowed, is one of the listed shapes where there is a list,
/// and keeps to every bound.
pub proof fn no_violation_means(shape: Seq<i64>, rule: ShapeRule)
    requires
        shape.len() <= 16,
        crate::policy::all_positive(shape),
        rule_violation(shape, rule) is None,
    ensures
        rule.min_dimensions matches Some(min) ==> min <= shape.len(),
        rule.max_dimensions matches Some(max) ==> shape.len() <= max,
        rule.max_tensor_elements is Some && shape.len() > 0 ==> protobuf::element_count(shape)
            <= rule.max_tensor_elements->0,
        rule.exact_shapes matches Some(shapes) ==> exists|i: int|
            0 <= i < shapes@.len() && (#[trigger] shapes@[i])@ == shape,
        rule.dimension_bounds matches Some(bounds) ==> forall|i: int|
            0 <= i < bounds@.len() ==> within_bound(shape, #[trigger] bounds@[i]),
{
    protobuf::product_of_positive(shape);
    if let Some(bounds) = rule.dimension_bounds {
        no_bound_violation(shape, bounds@);
    }
}

proof fn no_bound_violation(shape: Seq<i64>, bounds: Seq<DimensionBound>)
    requires
        bound_violation(shape, bounds) is None,
    ensures
        forall|i: int| 0 <= i < bounds.len() ==> within_bound(shape, #[trigger] bounds[i]),
    decreases bounds.len(),
{
    if bounds.len() > 0 {
        let rest = bounds.skip(1);
        no_bound_violation(shape, rest);
        assert(forall|i: int| 0 < i < bounds.len() ==> bounds[i] == rest[i - 1]);
    }
}

/// Where the varints end that begin before `stop`, or the first that cannot be
/// read.
pub open spec fn packed_end(reach: Seq<u8>, at: int, stop: int, max_bytes: int) -> (
    Result<(), ProtoError>,
    int,
)
    decreases protobuf::left(at, stop),
    when 0 <= at && 0 <= max_bytes
{
    if at >= stop {
        (Ok(()), at)
    } else {
        proof {
            protobuf::varint_bounds(reach, at, max_bytes);
        }
        match protobuf::varint(reach, at, max_bytes) {
            (Err(e), next) => (Err(e), next),
            (Ok(_), next) => packed_end(reach, next, stop, max_bytes),
        }
    }
}

/// Where the content of a field ends. A packed shape ends with the last dimension
/// that begins in it.
pub open spec fn field_end(
    reach: Seq<u8>,
    at: int,
    wire_type: int,
    is_shape: bool,
    max_bytes: int,
) -> (Result<(), ProtoError>, int) {
    if is_shape && wire_type == 2 {
        match protobuf::delimited(reach, at, reach.len() as int, max_bytes) {
            (Err(e), next) => (Err(e), next),
            (Ok(stop), next) => packed_end(reach, next, stop, max_bytes),
        }
    } else {
        protobuf::skipped(reach, at, wire_type, max_bytes)
    }
}

/// Reading packed dimensions never leads backwards.
pub proof fn packed_end_forward(reach: Seq<u8>, at: int, stop: int, max_bytes: int)
    requires
        0 <= at,
        0 <= max_bytes,
    ensures
        at <= packed_end(reach, at, stop, max_bytes).1,
    decreases protobuf::left(at, stop),
{
    if at < stop {
        protobuf::varint_bounds(reach, at, max_bytes);
        if let (Ok(_), next) = protobuf::varint(reach, at, max_bytes) {
            packed_end_forward(reach, next, stop, max_bytes);
        }
    }
}

/// Passing over a field never leads backwards.
pub proof fn field_end_forward(
    reach: Seq<u8>,
    at: int,
    wire_type: int,
    is_shape: bool,
    max_bytes: int,
)
    requires
        0 <= at,
        0 <= max_bytes,
    ensures
        at <= field_end(reach, at, wire_type, is_shape, max_bytes).1,
{
    protobuf::varint_bounds(reach, at, max_bytes);
    protobuf::skipped_bounds(reach, at, wire_type, max_bytes);
    if let (Ok(stop), next) = protobuf::delimited(reach, at, reach.len() as int, max_bytes) {
        packed_end_forward(reach, next, stop, max_bytes);
    }
}

/// The numbers of the fields in a message that ends at `end`, in their order, up
/// to the first that cannot be passed over. Fields inside nested messages do not
/// count.
pub open spec fn message_fields(buf: Seq<u8>, offset: int, end: int, policy: DynamicPolicy) -> Seq<
    u32,
>
    decreases protobuf::left(offset, end),
    when 0 <= offset
{
    let max_bytes = policy.max_varint_bytes as int;
    let reach = buf.take(end);
    if offset >= end {
        Seq::empty()
    } else {
        proof {
            protobuf::varint_bounds(reach, offset, max_bytes);
        }
        match protobuf::varint(reach, offset, max_bytes) {
            (Err(_), _) => Seq::empty(),
            (Ok(tag), at) => {
                let field = protobuf::tag_field(tag) as u32;
                let wire_type = protobuf::tag_wire_type(tag);
                let is_shape = policy.shape_rules@.contains_key(field);
                proof {
                    field_end_forward(reach, at, wire_type, is_shape, max_bytes);
                }
                match field_end(reach, at, wire_type, is_shape, max_bytes) {
                    (Err(_), _) => seq![field],
                    (Ok(_), next) => seq![field] + message_fields(buf, next, end, policy),
                }
            },
        }
    }
}

proof fn collect_packed_ends(
    reach: Seq<u8>,
    st: PolicyState,
    stop: int,
    i: int,
    max_bytes: int,
)
    requires
        0 <= st.offset,
        0 <= max_bytes,
        collect_packed(reach, st, stop, i, max_bytes).0 is Ok,
    ensures
        packed_end(reach, st.offset, stop, max_bytes) == (
            Ok::<(), ProtoError>(()),
            collect_packed(reach, st, stop, i, max_bytes).1.offset,
        ),
    decreases protobuf::left(st.offset, stop),
{
    if st.offset < stop {
        protobuf::varint_bounds(reach, st.offset, max_bytes);
        collect_packed_ends(reach, collect_dim(reach, st, i, max_bytes).1, stop, i, max_bytes);
    }
}

/// A field that was collected ends where the content of the field ends.
proof fn collected_to_the_end(
    buf: Seq<u8>,
    st: PolicyState,
    end: int,
    field: u32,
    wire_type: int,
    max_bytes: int,
)
    requires
        0 <= st.offset,
        end <= buf.len(),
        0 <= end,
        0 <= max_bytes,
        collect_field(buf, st, end, field, wire_type, max_bytes).0 is Ok,
    ensures
        field_end(buf.take(end), st.offset, wire_type, true, max_bytes) == (
            Ok::<(), ProtoError>(()),
            collect_field(buf, st, end, field, wire_type, max_bytes).1.offset,
        ),
{
    let reach = buf.take(end);
    protobuf::varint_bounds(reach, st.offset, max_bytes);
    let (r, collected) = opened(st.collected, field);
    if wire_type == 2 {
        let (stop, next) = protobuf::delimited(reach, st.offset, end, max_bytes);
        collect_packed_ends(
            reach,
            PolicyState { offset: next, collected },
            stop->Ok_0,
            r->Ok_0,
            max_bytes,
        );
    }
}

proof fn walked_fields_are_allowed(
    buf: Seq<u8>,
    st: PolicyState,
    end: int,
    policy: DynamicPolicy,
)
    requires
        0 <= st.offset,
        0 <= end <= buf.len(),
        walk_policy_fields(buf, st, end, 0, policy).0 is Ok,
    ensures
        policy.field_allow_list matches Some(list) ==> forall|i: int|
            0 <= i < message_fields(buf, st.offset, end, policy).len() ==> list@.contains(
                #[trigger] message_fields(buf, st.offset, end, policy)[i],
            ),
    decreases protobuf::left(st.offset, end),
{
    let max_bytes = policy.max_varint_bytes as int;
    let reach = buf.take(end);
    if st.offset < end {
        protobuf::varint_bounds(reach, st.offset, max_bytes);
        let (tag, at) = protobuf::varint(reach, st.offset, max_bytes);
        let here = PolicyState { offset: at, ..st };
        let field = protobuf::tag_field(tag->Ok_0) as u32;
        let wire_type = protobuf::tag_wire_type(tag->Ok_0);
        protobuf::varint_bounds(reach, at, max_bytes);
        protobuf::skipped_bounds(reach, at, wire_type, max_bytes);
        let next = if policy.shape_rules@.contains_key(field) {
            collect_field_forward(buf, here, end, field, wire_type, max_bytes);
            collected_to_the_end(buf, here, end, field, wire_type, max_bytes);
            collect_field(buf, here, end, field, wire_type, max_bytes).1
        } else {
            PolicyState { offset: protobuf::skipped(reach, at, wire_type, max_bytes).1, ..st }
        };
        walked_fields_are_allowed(buf, next, end, policy);
        let rest = message_fields(buf, next.offset, end, policy);
        let all = message_fields(buf, st.offset, end, policy);
        assert(all == seq![field] + rest);
        assert(forall|i: int| 0 < i < all.len() ==> all[i] == rest[i - 1]);
    }
}

/// Where a policy has an allow-list, every field at the top level of an allowed
/// packet's message is on it.
pub proof fn allowed_fields_are_listed(buf: Seq<u8>, policy: DynamicPolicy, i: int)
    requires
        verdict(buf, policy) is Allow,
        policy.field_allow_list is Some,
        0 <= i < message_fields(
            buf,
            grpc::payload_offset(buf) + 14,
            grpc::payload_offset(buf) + 14 + grpc::grpc_message_len(buf),
            policy,
        ).len(),
    ensures
        policy.field_allow_list->0@.contains(
            message_fields(
                buf,
                grpc::payload_offset(buf) + 14,
                grpc::payload_offset(buf) + 14 + grpc::grpc_message_len(buf),
                policy,
            )[i],
        ),
{
    let start = grpc::payload_offset(buf) + 14;
    walked_fields_are_allowed(
        buf,
        PolicyState { offset: start, collected: Seq::empty() },
        start + grpc::grpc_message_len(buf),
        policy,
    );
}

/// What a walk may have collected: up to 16 fields that have rules, each with up
/// to 16 positive dimensions.
pub open spec fn collected_valid(collected: Seq<Collected>, rules: Map<u32, ShapeRule>) -> bool {
    &&& collected.len() <= 16
    &&& forall|i: int|
        0 <= i < collected.len() ==> {
            &&& rules.contains_key((#[trigger] collected[i]).field)
            &&& collected[i].dims.len() <= 16
            &&& crate::policy::all_positive(collected[i].dims)
        }
}

proof fn slot_bounds(collected: Seq<Collected>, field: u32)
    ensures
        0 <= slot(collected, field) <= collected.len(),
    decreases collected.len(),
{
    if collected.len() > 0 && collected[0].field != field {
        slot_bounds(collected.skip(1), field);
    }
}

proof fn collect_dim_keeps_valid(
    reach: Seq<u8>,
    st: PolicyState,
    i: int,
    max_bytes: int,
    rules: Map<u32, ShapeRule>,
)
    requires
        0 <= st.offset,
        0 <= max_bytes,
        0 <= i < st.collected.len(),
        collected_valid(st.collected, rules),
    ensures
        collect_dim(reach, st, i, max_bytes).1.collected.len() == st.collected.len(),
        collected_valid(collect_dim(reach, st, i, max_bytes).1.collected, rules),
{
    protobuf::varint_bounds(reach, st.offset, max_bytes);
}

proof fn collect_packed_keeps_valid(
    reach: Seq<u8>,
    st: PolicyState,
    stop: int,
    i: int,
    max_bytes: int,
    rules: Map<u32, ShapeRule>,
)
    requires
        0 <= st.offset,
        0 <= max_bytes,
        0 <= i < st.collected.len(),
        collected_valid(st.collected, rules),
    ensures
        collected_valid(collect_packed(reach, st, stop, i, max_bytes).1.collected, rules),
    decreases protobuf::left(st.offset, stop),
{
    if st.offset < stop {
        protobuf::varint_bounds(reach, st.offset, max_bytes);
        collect_dim_keeps_valid(reach, st, i, max_bytes, rules);
        let (r, next) = collect_dim(reach, st, i, max_bytes);
        if r is Ok {
            collect_packed_keeps_valid(reach, next, stop, i, max_bytes, rules);
        }
    }
}

proof fn collect_field_keeps_valid(
    buf: Seq<u8>,
    st: PolicyState,
    end: int,
    field: u32,
    wire_type: int,
    max_bytes: int,
    rules: Map<u32, ShapeRule>,
)
    requires
        0 <= st.offset,
        0 <= max_bytes,
        rules.contains_key(field),
        collected_valid(st.collected, rules),
    ensures
        collected_valid(
            collect_field(buf, st, end, field, wire_type, max_bytes).1.collected,
            rules,
        ),
{
    slot_bounds(st.collected, field);
    protobuf::varint_bounds(buf.take(end), st.offset, max_bytes);
    if let (Ok(i), collected) = opened(st.collected, field) {
        let st = PolicyState { collected, ..st };
        assert(collected_valid(collected, rules));
        if wire_type == 2 {
            if let (Ok(stop), next) = protobuf::delimited(
                buf.take(end),
                st.offset,
                end,
                max_bytes,
            ) {
                collect_packed_keeps_valid(
                    buf.take(end),
                    PolicyState { offset: next, ..st },
                    stop,
                    i,
                    max_bytes,
                    rules,
                );
            }
        } else if wire_type == 0 {
            collect_dim_keeps_valid(buf.take(end), st, i, max_bytes, rules);
        }
    }
}

/// Whatever the bytes are, a walk collects dimensions only for fields that have
/// rules, only positive ones, and no more than fit.
pub proof fn walk_collects_valid(
    buf: Seq<u8>,
    st: PolicyState,
    end: int,
    depth: int,
    policy: DynamicPolicy,
)
    requires
        0 <= st.offset,
        collected_valid(st.collected, policy.shape_rules@),
    ensures
        collected_valid(
            walk_policy_fields(buf, st, end, depth, policy).1.collected,
            policy.shape_rules@,
        ),
    decreases protobuf::left(st.offset, end),
{
    let max_bytes = policy.max_varint_bytes as int;
    let reach = buf.take(end);
    if st.offset < end {
        protobuf::varint_bounds(reach, st.offset, max_bytes);
        if let (Ok(tag), at) = protobuf::varint(reach, st.offset, max_bytes) {
            let here = PolicyState { offset: at, ..st };
            let field = protobuf::tag_field(tag) as u32;
            let wire_type = protobuf::tag_wire_type(tag);
            protobuf::varint_bounds(reach, at, max_bytes);
            protobuf::skipped_bounds(reach, at, wire_type, max_bytes);
            if field_allowed(policy, depth, field) {
                if policy.shape_rules@.contains_key(field) {
                    collect_field_forward(buf, here, end, field, wire_type, max_bytes);
                    collect_field_keeps_valid(
                        buf,
                        here,
                        end,
                        field,
                        wire_type,
                        max_bytes,
                        policy.shape_rules@,
                    );
                    let (r, next) = collect_field(buf, here, end, field, wire_type, max_bytes);
                    if r is Ok {
                        walk_collects_valid(buf, next, end, depth, policy);
                    }
                } else if wire_type == 2 {
                    if let (Ok(stop), next) = protobuf::delimited(reach, at, end, max_bytes) {
                        walk_collects_valid(
                            buf,
                            PolicyState { offset: stop, ..st },
                            end,
                            depth,
                            policy,
                        );
                    }
                } else {
                    if let (Ok(_), next) = protobuf::skipped(reach, at, wire_type, max_bytes) {
                        walk_collects_valid(
                            buf,
                            PolicyState { offset: next, ..st },
                            end,
                            depth,
                            policy,
                        );
                    }
                }
            }
        }
    }
}

proof fn no_collected_violation(collected: Seq<Collected>, rules: Map<u32, ShapeRule>, i: int)
    requires
        collected_violation(collected, rules) is None,
        0 <= i < collected.len(),
    ensures
        rule_violation(collected[i].dims, rules[collected[i].field]) is None,
    decreases collected.len(),
{
    if i > 0 {
        no_collected_violation(collected.skip(1), rules, i - 1);
    }
}

/// What the walk of a packet's message has collected at its end.
pub open spec fn message_shapes(buf: Seq<u8>, policy: DynamicPolicy) -> Seq<Collected> {
    let start = grpc::payload_offset(buf) + 14;
    walk_policy_fields(
        buf,
        PolicyState { offset: start, collected: Seq::empty() },
        start + grpc::grpc_message_len(buf),
        0,
        policy,
    ).1.collected
}

/// Every shape in an allowed packet's message keeps to the rule for its field.
pub proof fn allowed_shapes_keep_rules(buf: Seq<u8>, policy: DynamicPolicy, i: int)
    requires
        verdict(buf, policy) is Allow,
        has_rules(policy),
        0 <= i < message_shapes(buf, policy).len(),
    ensures
        collected_valid(message_shapes(buf, policy), policy.shape_rules@),
        rule_violation(
            message_shapes(buf, policy)[i].dims,
            policy.shape_rules@[message_shapes(buf, policy)[i].field],
        ) is None,
{
    let start = grpc::payload_offset(buf) + 14;
    let st = PolicyState { offset: start, collected: Seq::empty() };
    walk_collects_valid(buf, st, start + grpc::grpc_message_len(buf), 0, policy);
    no_collected_violation(message_shapes(buf, policy), policy.shape_rules@, i);
}

proof fn walk_fields_is_local(
    a: Seq<u8>,
    b: Seq<u8>,
    st: PolicyState,
    end: int,
    depth: int,
    policy: DynamicPolicy,
)
    requires
        0 <= st.offset,
        0 <= end <= a.len(),
        end <= b.len(),
        a.take(end) == b.take(end),
    ensures
        walk_policy_fields(a, st, end, depth, policy) == walk_policy_fields(
            b,
            st,
            end,
            depth,
            policy,
        ),
    decreases protobuf::left(st.offset, end), 0int,
{
    let max_bytes = policy.max_varint_bytes as int;
    let reach = a.take(end);
    if st.offset < end {
        protobuf::varint_bounds(reach, st.offset, max_bytes);
        if let (Ok(tag), at) = protobuf::varint(reach, st.offset, max_bytes) {
            let here = PolicyState { offset: at, ..st };
            let field = protobuf::tag_field(tag) as u32;
            let wire_type = protobuf::tag_wire_type(tag);
            protobuf::varint_bounds(reach, at, max_bytes);
            protobuf::skipped_bounds(reach, at, wire_type, max_bytes);
            if policy.shape_rules@.contains_key(field) {
                collect_field_forward(a, here, end, field, wire_type, max_bytes);
                let (r, next) = collect_field(a, here, end, field, wire_type, max_bytes);
                if r is Ok {
                    walk_fields_is_local(a, b, next, end, depth, policy);
                }
            } else if wire_type == 2 {
                if let (Ok(stop), next) = protobuf::delimited(reach, at, end, max_bytes) {
                    assert(a.take(stop) =~= a.take(end).take(stop));
                    assert(b.take(stop) =~= b.take(end).take(stop));
                    walk_is_local(a, b, next, stop, depth + 1, policy);
                    walk_fields_is_local(
                        a,
                        b,
                        PolicyState { offset: stop, ..st },
                        end,
                        depth,
                        policy,
                    );
                }
            } else {
                if let (Ok(_), next) = protobuf::skipped(reach, at, wire_type, max_bytes) {
                    walk_fields_is_local(
                        a,
                        b,
                        PolicyState { offset: next, ..st },
                        end,
                        depth,
                        policy,
                    );
                }
            }
        }
    }
}

/// The outcome of a walk depends on nothing behind the end of the message.
pub proof fn walk_is_local(
    a: Seq<u8>,
    b: Seq<u8>,
    offset: int,
    end: int,
    depth: int,
    policy: DynamicPolicy,
)
    requires
        0 <= offset,
        0 <= end <= a.len(),
        end <= b.len(),
        a.take(end) == b.take(end),
    ensures
        walk_policy(a, offset, end, depth, policy) == walk_policy(b, offset, end, depth, policy),
    decreases protobuf::left(offset, end), 1int,
{
    if depth <= policy.max_recursion_depth {
        let st = PolicyState { offset, collected: Seq::empty() };
        walk_fields_is_local(a, b, st, end, depth, policy);
    }
}

/// Rules that say the same are broken by the same shapes, in the same way.
proof fn same_rules_are_broken_alike(shape: Seq<i64>, a: ShapeRule, b: ShapeRule)
    requires
        a.same_as(b),
    ensures
        rule_violation(shape, a) == rule_violation(shape, b),
{
    if a.exact_shapes is Some {
        let left = a.exact_shapes->0@;
        let right = b.exact_shapes->0@;
        if exists|i: int| 0 <= i < left.len() && (#[trigger] left[i])@ == shape {
            let i = choose|i: int| 0 <= i < left.len() && (#[trigger] left[i])@ == shape;
            assert(right[i]@ == shape);
        }
        if exists|i: int| 0 <= i < right.len() && (#[trigger] right[i])@ == shape {
            let i = choose|i: int| 0 <= i < right.len() && (#[trigger] right[i])@ == shape;
            assert(left[i]@ == shape);
        }
    }
}

proof fn same_policies_collect_alike(
    collected: Seq<Collected>,
    a: DynamicPolicy,
    b: DynamicPolicy,
)
    requires
        a.same_as(b),
    ensures
        collected_violation(collected, a.shape_rules@) == collected_violation(
            collected,
            b.shape_rules@,
        ),
    decreases collected.len(),
{
    if collected.len() > 0 {
        let field = collected[0].field;
        assert(a.shape_rules@.dom().contains(field) == b.shape_rules@.dom().contains(field));
        if b.shape_rules@.contains_key(field) {
            same_rules_are_broken_alike(
                collected[0].dims,
                a.shape_rules@[field],
                b.shape_rules@[field],
            );
        }
        same_policies_collect_alike(collected.skip(1), a, b);
    }
}

proof fn same_policies_walk_fields_alike(
    buf: Seq<u8>,
    st: PolicyState,
    end: int,
    depth: int,
    a: DynamicPolicy,
    b: DynamicPolicy,
)
    requires
        0 <= st.offset,
        a.same_as(b),
    ensures
        walk_policy_fields(buf, st, end, depth, a) == walk_policy_fields(buf, st, end, depth, b),
    decreases protobuf::left(st.offset, end), 0int,
{
    let max_bytes = a.max_varint_bytes as int;
    let reach = buf.take(end);
    if st.offset < end {
        protobuf::varint_bounds(reach, st.offset, max_bytes);
        if let (Ok(tag), at) = protobuf::varint(reach, st.offset, max_bytes) {
            let here = PolicyState { offset: at, ..st };
            let field = protobuf::tag_field(tag) as u32;
            let wire_type = protobuf::tag_wire_type(tag);
            assert(a.shape_rules@.dom().contains(field) == b.shape_rules@.dom().contains(field));
            assert(field_allowed(a, depth, field) == field_allowed(b, depth, field));
            protobuf::varint_bounds(reach, at, max_bytes);
            protobuf::skipped_bounds(reach, at, wire_type, max_bytes);
            if a.shape_rules@.contains_key(field) {
                collect_field_forward(buf, here, end, field, wire_type, max_bytes);
                let (r, next) = collect_field(buf, here, end, field, wire_type, max_bytes);
                if r is Ok {
                    same_policies_walk_fields_alike(buf, next, end, depth, a, b);
                }
            } else if wire_type == 2 {
                if let (Ok(stop), next) = protobuf::delimited(reach, at, end, max_bytes) {
                    same_policies_walk_alike(buf, next, stop, depth + 1, a, b);
                    let behind = PolicyState { offset: stop, ..st };
                    same_policies_walk_fields_alike(buf, behind, end, depth, a, b);
                }
            } else {
                if let (Ok(_), next) = protobuf::skipped(reach, at, wire_type, max_bytes) {
                    let behind = PolicyState { offset: next, ..st };
                    same_policies_walk_fields_alike(buf, behind, end, depth, a, b);
                }
            }
        }
    }
}

/// Policies that say the same walk a message in the same way.
pub proof fn same_policies_walk_alike(
    buf: Seq<u8>,
    offset: int,
    end: int,
    depth: int,
    a: DynamicPolicy,
    b: DynamicPolicy,
)
    requires
        0 <= offset,
        a.same_as(b),
    ensures
        walk_policy(buf, offset, end, depth, a) == walk_policy(buf, offset, end, depth, b),
    decreases protobuf::left(offset, end), 1int,
{
    if depth <= a.max_recursion_depth {
        let st = PolicyState { offset, collected: Seq::empty() };
        same_policies_walk_fields_alike(buf, st, end, depth, a, b);
        same_policies_collect_alike(
            walk_policy_fields(buf, st, end, depth, a).1.collected,
            a,
            b,
        );
    }
}

/// Policies that say the same, such as a policy and its clone, give the same verdict
/// on every packet.
pub proof fn same_policies_judge_alike(buf: Seq<u8>, a: DynamicPolicy, b: DynamicPolicy)
    requires
        a.same_as(b),
    ensures
        verdict(buf, a) == verdict(buf, b),
{
    let start = grpc::payload_offset(buf) + 14;
    same_policies_walk_alike(buf, start, start + grpc::grpc_message_len(buf), 0, a, b);
    assert(a.shape_rules@.is_empty() == b.shape_rules@.is_empty()) by {
        assert(a.shape_rules@.dom() == b.shape_rules@.dom());
    }
}

/// A message nested deeper than allowed is refused, whatever is inside it.
pub proof fn deep_nesting_is_refused(
    buf: Seq<u8>,
    offset: int,
    levels: nat,
    inner: Seq<u8>,
    depth: int,
    policy: DynamicPolicy,
)
    requires
        0 <= offset,
        offset + protobuf::nested(levels, inner).len() <= buf.len(),
        buf.subrange(offset, offset + protobuf::nested(levels, inner).len()) == protobuf::nested(
            levels,
            inner,
        ),
        protobuf::nested(levels, inner).len() < 0x80,
        !policy.shape_rules@.contains_key(2),
        field_allowed(policy, depth, 2),
        policy.max_varint_bytes >= 1,
        0 <= depth,
        depth + levels > policy.max_recursion_depth,
    ensures
        walk_policy(
            buf,
            offset,
            offset + protobuf::nested(levels, inner).len(),
            depth,
            policy,
        ).0 == Err::<(), _>(WalkError::Proto(ProtoError::RecursionLimit)),
    decreases levels,
{
    if depth <= policy.max_recursion_depth {
        let whole = protobuf::nested(levels, inner);
        let content = protobuf::nested((levels - 1) as nat, inner);
        let end = offset + whole.len();
        let reach = buf.take(end);
        let max_bytes = policy.max_varint_bytes as int;
        assert(buf.subrange(offset, end)[0] == 0x12);
        assert(buf.subrange(offset, end)[1] == content.len() as u8);
        protobuf::single_byte_varint(reach, offset, max_bytes);
        protobuf::single_byte_varint(reach, offset + 1, max_bytes);
        assert(buf.subrange(offset + 2, end) =~= content) by {
            assert(whole.skip(2) =~= content);
            assert(buf.subrange(offset, end).skip(2) =~= buf.subrange(offset + 2, end));
        }
        deep_nesting_is_refused(
            buf,
            offset + 2,
            (levels - 1) as nat,
            inner,
            depth + 1,
            policy,
        );
    }
}

/// The number that four bytes of a packet stand for.
pub open spec fn number_at(buf: Seq<u8>, at: int) -> int {
    ((buf[at] * 256 + buf[at + 1]) * 256 + buf[at + 2]) * 256 + buf[at + 3]
}

/// Where the addresses and the port of a packet are read: the source and destination
/// addresses from the 12th byte of the IPv4 header on, and the destination port from the
/// third byte behind it.
pub proof fn addresses_and_port_are_read(buf: Seq<u8>)
    requires
        buf.len() >= 34,
    ensures
        src_ip(buf).bits == number_at(buf, 26),
        dst_ip(buf).bits == number_at(buf, 30),
        buf.len() >= 14 + buf[14] % 16 * 4 + 4 ==> dst_port(buf) == buf[14 + buf[14] % 16 * 4 + 2]
            * 256 + buf[14 + buf[14] % 16 * 4 + 3],
{
    let src = buf.subrange(26, 30);
    let dst = buf.subrange(30, 34);
    assert(src[0] == buf[26] && src[1] == buf[27] && src[2] == buf[28] && src[3] == buf[29]);
    assert(dst[0] == buf[30] && dst[1] == buf[31] && dst[2] == buf[32] && dst[3] == buf[33]);
    let at = 14 + buf[14] % 16 * 4 + 2;
    if buf.len() >= at + 2 {
        assert(buf.skip(at)[0] == buf[at] && buf.skip(at)[1] == buf[at + 1]);
    }
}

/// A packet from a blocked address is blocked for that address, and so is one to a blocked
/// address; the source is looked at first. A packet that is no IPv4 packet is blocked as
/// invalid before that.
pub proof fn addresses_are_judged(buf: Seq<u8>, policy: DynamicPolicy)
    ensures
        buf.len() < 34 ==> verdict(buf, policy) == MatchResult::Block(BlockReason::InvalidPacket),
        buf.len() >= 34 && !(buf[12] == 8 && buf[13] == 0) ==> verdict(buf, policy)
            == MatchResult::Block(BlockReason::InvalidPacket),
        buf.len() >= 34 && buf[12] == 8 && buf[13] == 0 ==> {
            let src = Ipv4Addr { bits: number_at(buf, 26) as u32 };
            let dst = Ipv4Addr { bits: number_at(buf, 30) as u32 };
            &&& policy.blocked_ips@.contains(src.bits) ==> verdict(buf, policy)
                == MatchResult::Block(BlockReason::BlockedIP(src))
            &&& !policy.blocked_ips@.contains(src.bits) && policy.blocked_ips@.contains(dst.bits)
                ==> verdict(buf, policy) == MatchResult::Block(BlockReason::BlockedIP(dst))
            &&& verdict(buf, policy) matches MatchResult::Block(BlockReason::BlockedIP(ip))
                ==> policy.blocked_ips@.contains(ip.bits) && (ip == src || ip == dst)
        },
{
    if buf.len() >= 34 {
        addresses_and_port_are_read(buf);
        assert(buf.skip(12)[0] == buf[12] && buf.skip(12)[1] == buf[13]);
    }
}

/// Where ports are limited, a TCP packet between addresses that are not blocked is blocked
/// for its port exactly where that is not on the list; one without a readable TCP port is
/// blocked as invalid. Where neither ports nor payloads are limited, it is allowed.
pub proof fn ports_are_judged(buf: Seq<u8>, policy: DynamicPolicy)
    requires
        buf.len() >= 34,
        buf[12] == 8 && buf[13] == 0,
        !policy.blocked_ips@.contains(number_at(buf, 26) as u32),
        !policy.blocked_ips@.contains(number_at(buf, 30) as u32),
    ensures
        ({
            let at = 14 + buf[14] % 16 * 4;
            let readable = buf[23] == 6 && buf[14] % 16 >= 5 && at + 4 <= buf.len();
            let port = (buf[at + 2] * 256 + buf[at + 3]) as u16;
            let rules = policy.field_allow_list is Some || !policy.shape_rules@.is_empty();
            &&& (policy.allowed_ports is Some || rules) && !readable ==> verdict(buf, policy)
                == MatchResult::Block(BlockReason::InvalidPacket)
            &&& policy.allowed_ports is Some && readable && !policy.allowed_ports->0@.contains(port)
                ==> verdict(buf, policy) == MatchResult::Block(BlockReason::BlockedPort(port))
            &&& policy.allowed_ports is Some && readable && policy.allowed_ports->0@.contains(port)
                && !rules ==> verdict(buf, policy) == MatchResult::Allow
            &&& policy.allowed_ports is None && !rules ==> verdict(buf, policy)
                == MatchResult::Allow
            &&& readable && rules && (policy.allowed_ports is None
                || policy.allowed_ports->0@.contains(port)) && grpc::parse_error(buf, port) is Some
                ==> verdict(buf, policy) == MatchResult::Block(BlockReason::InvalidPacket)
        }),
{
    addresses_and_port_are_read(buf);
    assert(buf.skip(12)[0] == buf[12] && buf.skip(12)[1] == buf[13]);
}

/// A payload that is not in order is blocked for what is wrong with it.
pub proof fn payload_errors_are_reported(buf: Seq<u8>, policy: DynamicPolicy, e: ProtoError)
    requires
        has_rules(policy),
        grpc::parse_error(buf, dst_port(buf)) is None,
        !policy.blocked_ips@.contains(src_ip(buf).bits),
        !policy.blocked_ips@.contains(dst_ip(buf).bits),
        policy.allowed_ports matches Some(ports) ==> ports@.contains(dst_port(buf)),
    ensures
        message_walk(buf, policy) == Err::<(), _>(WalkError::Proto(e)) <==> verdict(buf, policy)
            == MatchResult::Block(BlockReason::InvalidProto(e)),
        message_walk(buf, policy) is Ok <==> verdict(buf, policy) == MatchResult::Allow,
{
    grpc::parsed_packet_is_complete(buf, dst_port(buf));
}

/// A message is walked only where it is not nested too deep and lies in the packet; which
/// of the two is wrong is reported, the depth first.
pub proof fn message_must_lie_in_the_packet(
    buf: Seq<u8>,
    offset: int,
    end: int,
    depth: int,
    policy: DynamicPolicy,
)
    requires
        0 <= offset,
    ensures
        depth > policy.max_recursion_depth ==> walk_policy(buf, offset, end, depth, policy).0
            == Err::<(), _>(WalkError::Proto(ProtoError::RecursionLimit)),
        depth <= policy.max_recursion_depth && end > buf.len() ==> walk_policy(
            buf,
            offset,
            end,
            depth,
            policy,
        ).0 == Err::<(), _>(WalkError::Proto(ProtoError::BufferUnderflow)),
        depth <= policy.max_recursion_depth && end <= buf.len() && end <= offset ==> walk_policy(
            buf,
            offset,
            end,
            depth,
            policy,
        ).0 == Ok::<(), WalkError>(()),
{
    let st = PolicyState { offset, collected: Seq::empty() };
    if end <= offset {
        assert(walk_policy_fields(buf, st, end, depth, policy) == (Ok::<(), WalkError>(()), st));
        assert(collected_violation(Seq::<Collected>::empty(), policy.shape_rules@) is None);
    }
}

} // verus!
