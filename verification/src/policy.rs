//! Policies: what traffic is allowed, as written down and as the engine uses it.
use crate::endian;
use crate::text;
use crate::text::{
    chars_of, decimal_text, is_white_space, list_text, signed_decimal_text,
};
use std::collections::{HashMap, HashSet};
use vstd::prelude::*;
use vstd::std_specs::iter::IteratorSpec;

verus! {

/// An IPv4 address, its four bytes as one number with the first byte on top.
#[derive(Clone, Copy, Debug, PartialEq, Eq, Structural)]
pub struct Ipv4Addr {
    pub bits: u32,
}

impl Ipv4Addr {
    /// The address `a.b.c.d`.
    pub fn new(a: u8, b: u8, c: u8, d: u8) -> (ip: Self)
        ensures
            ip.bits == endian::be32(seq![a, b, c, d]),
    {
        Ipv4Addr { bits: endian::join_u32(a, b, c, d) }
    }
}

/// A policy as it is written down.
#[derive(Debug, Clone, PartialEq)]
pub struct Policy {
    /// Version of the policy, such as "1.0.0".
    pub version: String,
    pub description: Option<String>,
    /// Destination ports that are allowed; all of them where there is no set.
    pub allowed_ports: Option<HashSet<u16>>,
    /// Addresses that are blocked, by their bits.
    pub blocked_ips: Option<HashSet<u32>>,
    pub protobuf_rules: Option<ProtobufRules>,
}

/// Rules for the Protobuf payload.
#[derive(Debug, Clone, PartialEq)]
pub struct ProtobufRules {
    /// Largest number of bytes in a varint, 9 where it is not given.
    pub max_varint_bytes: Option<usize>,
    /// Largest depth of nested messages, 3 where it is not given.
    pub max_recursion_depth: Option<usize>,
    /// Field numbers that are allowed at the top level; all where there is no set.
    pub field_allow_list: Option<HashSet<u32>>,
    pub shape_rules: Option<Vec<ShapeRule>>,
}

/// Rules for the tensor shape in one field.
#[derive(Debug, Clone, PartialEq)]
pub struct ShapeRule {
    /// Number of the field that holds the shape.
    pub field_number: u32,
    /// Smallest number of dimensions.
    pub min_dimensions: Option<usize>,
    /// Largest number of dimensions.
    pub max_dimensions: Option<usize>,
    /// Largest number of elements.
    pub max_tensor_elements: Option<u64>,
    /// The only shapes that are allowed.
    pub exact_shapes: Option<Vec<Vec<i64>>>,
    /// Bounds of single dimensions.
    pub dimension_bounds: Option<Vec<DimensionBound>>,
}

/// Bounds of the dimension at one index.
#[derive(Debug, Clone, Copy, PartialEq, Eq, Structural)]
pub struct DimensionBound {
    pub index: usize,
    pub min: Option<i64>,
    pub max: Option<i64>,
}

/// A policy in the form that packets are matched against.
#[derive(Debug)]
pub struct DynamicPolicy {
    pub version: String,
    pub allowed_ports: Option<HashSet<u16>>,
    /// Addresses that are blocked, by their bits.
    pub blocked_ips: HashSet<u32>,
    pub max_varint_bytes: usize,
    pub max_recursion_depth: usize,
    pub field_allow_list: Option<HashSet<u32>>,
    /// The rule for each field that has one.
    pub shape_rules: HashMap<u32, ShapeRule>,
}

// ---------------------------------------------------------------------------
// Copies
// ---------------------------------------------------------------------------

/// Both are there with the same shapes, or neither is.
pub open spec fn same_shapes(a: Option<Vec<Vec<i64>>>, b: Option<Vec<Vec<i64>>>) -> bool {
    match (a, b) {
        (Some(a), Some(b)) => a@.len() == b@.len() && forall|i: int|
            0 <= i < a@.len() ==> (#[trigger] a@[i])@ == (#[trigger] b@[i])@,
        (None, None) => true,
        _ => false,
    }
}

/// Both are there with the same bounds, or neither is.
pub open spec fn same_bounds(
    a: Option<Vec<DimensionBound>>,
    b: Option<Vec<DimensionBound>>,
) -> bool {
    match (a, b) {
        (Some(a), Some(b)) => a@ == b@,
        (None, None) => true,
        _ => false,
    }
}

/// Both are there with the same entries, or neither is.
pub open spec fn same_set<T>(a: Option<HashSet<T>>, b: Option<HashSet<T>>) -> bool {
    match (a, b) {
        (Some(a), Some(b)) => a@ == b@,
        (None, None) => true,
        _ => false,
    }
}

impl ShapeRule {
    /// Both rules say the same.
    pub open spec fn same_as(self, other: ShapeRule) -> bool {
        &&& self.field_number == other.field_number
        &&& self.min_dimensions == other.min_dimensions
        &&& self.max_dimensions == other.max_dimensions
        &&& self.max_tensor_elements == other.max_tensor_elements
        &&& same_shapes(self.exact_shapes, other.exact_shapes)
        &&& same_bounds(self.dimension_bounds, other.dimension_bounds)
    }

    /// A rule that says the same.
    fn copied(&self) -> (copy: ShapeRule)
        ensures
            copy.same_as(*self),
    {
        let exact_shapes: Option<Vec<Vec<i64>>> = match &self.exact_shapes {
            Some(shapes) => Some(copy_shapes(shapes)),
            None => None,
        };
        let dimension_bounds: Option<Vec<DimensionBound>> = match &self.dimension_bounds {
            Some(bounds) => {
                let copy: Vec<DimensionBound> = bounds.clone();
                assert(copy@ =~= bounds@);
                Some(copy)
            },
            None => None,
        };
        ShapeRule {
            field_number: self.field_number,
            min_dimensions: self.min_dimensions,
            max_dimensions: self.max_dimensions,
            max_tensor_elements: self.max_tensor_elements,
            exact_shapes,
            dimension_bounds,
        }
    }
}

fn copy_shapes(shapes: &Vec<Vec<i64>>) -> (copy: Vec<Vec<i64>>)
    ensures
        copy@.len() == shapes@.len(),
        forall|i: int|
            0 <= i < shapes@.len() ==> (#[trigger] copy@[i])@ == (#[trigger] shapes@[i])@,
{
    let mut copy: Vec<Vec<i64>> = Vec::new();
    let mut i: usize = 0;
    while i < shapes.len()
        invariant
            i <= shapes@.len(),
            copy@.len() == i,
            forall|j: int| 0 <= j < i ==> (#[trigger] copy@[j])@ == (#[trigger] shapes@[j])@,
        decreases shapes@.len() - i,
    {
        let shape: Vec<i64> = shapes[i].clone();
        assert(shape@ =~= shapes@[i as int]@);
        copy.push(shape);
        i = i + 1;
    }
    copy
}

fn copy_set<T: Copy + Eq + std::hash::Hash>(set: &HashSet<T>) -> (copy: HashSet<T>)
    requires
        vstd::std_specs::hash::obeys_key_model::<T>(),
    ensures
        copy@ == set@,
{
    broadcast use vstd::std_specs::hash::group_hash_axioms;

    let mut copy: HashSet<T> = HashSet::new();
    let ghost all = vstd::std_specs::hash::spec_hash_keys_iter(set).remaining().unref();
    for x in it: set.iter()
        invariant
            vstd::std_specs::hash::obeys_key_model::<T>(),
            it.seq().unref() == all,
            forall|y: T| #[trigger]
                copy@.contains(y) == all.take(it.index() as int).contains(y),
    {
        let ghost n = it.index() as int;
        let ghost before = copy@;
        copy.insert(*x);
        proof {
            assert(all.take(n + 1) =~= all.take(n).push(*x));
            assert forall|y: T| #[trigger] copy@.contains(y) == all.take(n + 1).contains(y) by {
                assert(before.contains(y) == all.take(n).contains(y));
                vstd::seq_lib::lemma_seq_contains_after_push(all.take(n), *x, y);
                assert(all.take(n).push(*x)[n] == *x);
            }
        }
    }
    assert(all.take(all.len() as int) =~= all);
    assert(copy@ =~= set@);
    copy
}

fn copy_rules(rules: &HashMap<u32, ShapeRule>) -> (copy: HashMap<u32, ShapeRule>)
    ensures
        copy@.dom() == rules@.dom(),
        forall|field: u32| #[trigger]
            rules@.contains_key(field) ==> copy@[field].same_as(rules@[field]),
{
    broadcast use vstd::std_specs::hash::group_hash_axioms;

    let mut copy: HashMap<u32, ShapeRule> = HashMap::new();
    for entry in it: rules.iter()
        invariant
            forall|i: int|
                0 <= i < it.seq().len() ==> #[trigger] rules@.contains_key(*it.seq()[i].0)
                    && rules@[*it.seq()[i].0] == *it.seq()[i].1,
            forall|field: u32| #[trigger]
                rules@.contains_key(field) ==> it.seq().contains((&field, &rules@[field])),
            forall|i: int| 0 <= i < it.index() ==> copy@.contains_key(*(#[trigger] it.seq()[i]).0),
            forall|field: u32| #[trigger]
                copy@.contains_key(field) ==> rules@.contains_key(field)
                    && copy@[field].same_as(rules@[field]),
    {
        let (field, rule) = entry;
        assert(rules@.contains_key(*it.seq()[it.index() as int].0));
        copy.insert(*field, rule.copied());
    }
    assert(copy@.dom() =~= rules@.dom());
    copy
}

impl DynamicPolicy {
    /// Both policies say the same.
    pub open spec fn same_as(self, other: DynamicPolicy) -> bool {
        &&& self.version@ == other.version@
        &&& same_set(self.allowed_ports, other.allowed_ports)
        &&& self.blocked_ips@ == other.blocked_ips@
        &&& self.max_varint_bytes == other.max_varint_bytes
        &&& self.max_recursion_depth == other.max_recursion_depth
        &&& same_set(self.field_allow_list, other.field_allow_list)
        &&& self.shape_rules@.dom() == other.shape_rules@.dom()
        &&& forall|field: u32| #[trigger]
            other.shape_rules@.contains_key(field) ==> self.shape_rules@[field].same_as(
                other.shape_rules@[field],
            )
    }
}

impl Clone for DynamicPolicy {
    fn clone(&self) -> (copy: Self)
        ensures
            copy.same_as(*self),
    {
        broadcast use vstd::std_specs::hash::group_hash_axioms;

        let allowed_ports: Option<HashSet<u16>> = match &self.allowed_ports {
            Some(ports) => Some(copy_set(ports)),
            None => None,
        };
        let field_allow_list: Option<HashSet<u32>> = match &self.field_allow_list {
            Some(fields) => Some(copy_set(fields)),
            None => None,
        };
        DynamicPolicy {
            version: self.version.clone(),
            allowed_ports,
            blocked_ips: copy_set(&self.blocked_ips),
            max_varint_bytes: self.max_varint_bytes,
            max_recursion_depth: self.max_recursion_depth,
            field_allow_list,
            shape_rules: copy_rules(&self.shape_rules),
        }
    }
}

// ---------------------------------------------------------------------------
// Validation
// ---------------------------------------------------------------------------

/// What is wrong with one bound of the rule for `field`, as a message.
pub open spec fn bound_error(field: u32, bound: DimensionBound) -> Option<Seq<char>> {
    if bound.index >= 16 {
        Some(
            "Dimension bound index "@ + text::decimal(bound.index as nat) + " for field "@
                + text::decimal(field as nat) + " exceeds maximum supported dimensions (16)"@,
        )
    } else if bound.min is Some && bound.max is Some && bound.min->0 > bound.max->0 {
        Some(
            "Dimension bound for field "@ + text::decimal(field as nat) + " index "@
                + text::decimal(bound.index as nat) + ": min ("@ + text::signed_decimal(
                bound.min->0 as int,
            ) + ") cannot exceed max ("@ + text::signed_decimal(bound.max->0 as int) + ")"@,
        )
    } else {
        None
    }
}

/// What is wrong with the first bound of the rule for `field` that is not right.
pub open spec fn bounds_error(field: u32, bounds: Seq<DimensionBound>) -> Option<Seq<char>>
    decreases bounds.len(),
{
    if bounds.len() == 0 {
        None
    } else if bound_error(field, bounds[0]) is Some {
        bound_error(field, bounds[0])
    } else {
        bounds_error(field, bounds.skip(1))
    }
}

/// Every dimension is positive.
pub open spec fn all_positive(shape: Seq<i64>) -> bool {
    forall|i: int| 0 <= i < shape.len() ==> shape[i] > 0
}

/// What is wrong with one shape on the list of the rule for `field`, as a
/// message.
pub open spec fn exact_error(field: u32, shape: Seq<i64>) -> Option<Seq<char>> {
    if shape.len() > 16 {
        Some(
            "Exact shape "@ + text::list_notation(shape) + " for field "@ + text::decimal(
                field as nat,
            ) + " exceeds maximum supported dimensions (16)"@,
        )
    } else if !all_positive(shape) {
        Some(
            "Exact shape "@ + text::list_notation(shape) + " for field "@ + text::decimal(
                field as nat,
            ) + " contains non-positive dimensions"@,
        )
    } else {
        None
    }
}

/// What is wrong with the first shape on the list of the rule for `field` that
/// is not right.
pub open spec fn exacts_error(field: u32, shapes: Seq<Vec<i64>>) -> Option<Seq<char>>
    decreases shapes.len(),
{
    if shapes.len() == 0 {
        None
    } else if exact_error(field, shapes[0]@) is Some {
        exact_error(field, shapes[0]@)
    } else {
        exacts_error(field, shapes.skip(1))
    }
}

/// What is wrong with a shape rule, as a message.
pub open spec fn shape_rule_error(rule: ShapeRule) -> Option<Seq<char>> {
    if rule.min_dimensions is Some && rule.max_dimensions is Some && rule.min_dimensions->0
        > rule.max_dimensions->0 {
        Some(
            "Shape rule for field "@ + text::decimal(rule.field_number as nat)
                + ": min_dimensions ("@ + text::decimal(rule.min_dimensions->0 as nat)
                + ") cannot exceed max_dimensions ("@ + text::decimal(
                rule.max_dimensions->0 as nat,
            ) + ")"@,
        )
    } else if rule.dimension_bounds is Some && bounds_error(
        rule.field_number,
        rule.dimension_bounds->0@,
    ) is Some {
        bounds_error(rule.field_number, rule.dimension_bounds->0@)
    } else if rule.exact_shapes is Some {
        exacts_error(rule.field_number, rule.exact_shapes->0@)
    } else {
        None
    }
}

/// What is wrong with the first shape rule that is not right.
pub open spec fn shape_rules_error(rules: Seq<ShapeRule>) -> Option<Seq<char>>
    decreases rules.len(),
{
    if rules.len() == 0 {
        None
    } else if shape_rule_error(rules[0]) is Some {
        shape_rule_error(rules[0])
    } else {
        shape_rules_error(rules.skip(1))
    }
}

/// What is wrong with the rules for the payload, as a message.
pub open spec fn protobuf_rules_error(rules: ProtobufRules) -> Option<Seq<char>> {
    if rules.max_varint_bytes is Some && !(1 <= rules.max_varint_bytes->0 <= 10) {
        Some("max_varint_bytes must be between 1 and 10"@)
    } else if rules.max_recursion_depth is Some && rules.max_recursion_depth->0 > 100 {
        Some("max_recursion_depth cannot exceed 100"@)
    } else if rules.shape_rules is Some {
        shape_rules_error(rules.shape_rules->0@)
    } else {
        None
    }
}

/// What is wrong with a policy, as a message.
pub open spec fn policy_error(policy: Policy) -> Option<Seq<char>> {
    if text::trimmed(policy.version@).len() == 0 {
        Some("Policy version cannot be empty"@)
    } else if policy.protobuf_rules is Some {
        protobuf_rules_error(policy.protobuf_rules->0)
    } else {
        None
    }
}

/// The outcome of a check: the message of what is wrong, if anything is.
pub open spec fn reports(r: Result<(), String>, error: Option<Seq<char>>) -> bool {
    match r {
        Ok(_) => error is None,
        Err(e) => error == Some(e@),
    }
}

/// Checks one bound of the rule for a field.
fn check_bound(field: u32, bound: &DimensionBound) -> (r: Result<(), String>)
    ensures
        reports(r, bound_error(field, *bound)),
{
    if bound.index >= 16 {
        let mut m: String = "Dimension bound index ".to_owned();
        m.append(decimal_text(bound.index as u64).as_str());
        m.append(" for field ");
        m.append(decimal_text(field as u64).as_str());
        m.append(" exceeds maximum supported dimensions (16)");
        return Err(m);
    }
    if let (Some(min), Some(max)) = (bound.min, bound.max) {
        if min > max {
            let mut m: String = "Dimension bound for field ".to_owned();
            m.append(decimal_text(field as u64).as_str());
            m.append(" index ");
            m.append(decimal_text(bound.index as u64).as_str());
            m.append(": min (");
            m.append(signed_decimal_text(min).as_str());
            m.append(") cannot exceed max (");
            m.append(signed_decimal_text(max).as_str());
            m.append(")");
            return Err(m);
        }
    }
    Ok(())
}

/// Checks the bounds of the rule for a field.
fn check_all_bounds(field: u32, bounds: &Vec<DimensionBound>) -> (r: Result<(), String>)
    ensures
        reports(r, bounds_error(field, bounds@)),
{
    let mut i: usize = 0;
    assert(bounds@.skip(0) =~= bounds@);
    while i < bounds.len()
        invariant
            i <= bounds@.len(),
            bounds_error(field, bounds@.skip(i as int)) == bounds_error(field, bounds@),
        decreases bounds@.len() - i,
    {
        assert(bounds@.skip(i as int).skip(1) =~= bounds@.skip(i + 1));
        match check_bound(field, &bounds[i]) {
            Ok(_) => {},
            Err(e) => return Err(e),
        }
        i = i + 1;
    }
    Ok(())
}

/// Checks one shape on the list of the rule for a field.
fn check_exact(field: u32, shape: &Vec<i64>) -> (r: Result<(), String>)
    ensures
        reports(r, exact_error(field, shape@)),
{
    let mut positive: bool = true;
    let mut i: usize = 0;
    while i < shape.len()
        invariant
            i <= shape@.len(),
            positive <==> forall|j: int| 0 <= j < i ==> shape@[j] > 0,
        decreases shape@.len() - i,
    {
        if shape[i] <= 0 {
            positive = false;
        }
        i = i + 1;
    }
    if shape.len() > 16 || !positive {
        let mut m: String = "Exact shape ".to_owned();
        m.append(list_text(shape).as_str());
        m.append(" for field ");
        m.append(decimal_text(field as u64).as_str());
        if shape.len() > 16 {
            m.append(" exceeds maximum supported dimensions (16)");
        } else {
            m.append(" contains non-positive dimensions");
        }
        return Err(m);
    }
    Ok(())
}

/// Checks the list of shapes of the rule for a field.
fn check_exacts(field: u32, shapes: &Vec<Vec<i64>>) -> (r: Result<(), String>)
    ensures
        reports(r, exacts_error(field, shapes@)),
{
    let mut i: usize = 0;
    assert(shapes@.skip(0) =~= shapes@);
    while i < shapes.len()
        invariant
            i <= shapes@.len(),
            exacts_error(field, shapes@.skip(i as int)) == exacts_error(field, shapes@),
        decreases shapes@.len() - i,
    {
        assert(shapes@.skip(i as int).skip(1) =~= shapes@.skip(i + 1));
        match check_exact(field, &shapes[i]) {
            Ok(_) => {},
            Err(e) => return Err(e),
        }
        i = i + 1;
    }
    Ok(())
}

/// Checks a shape rule.
fn check_shape_rule(rule: &ShapeRule) -> (r: Result<(), String>)
    ensures
        reports(r, shape_rule_error(*rule)),
{
    if let (Some(min), Some(max)) = (rule.min_dimensions, rule.max_dimensions) {
        if min > max {
            let mut m: String = "Shape rule for field ".to_owned();
            m.append(decimal_text(rule.field_number as u64).as_str());
            m.append(": min_dimensions (");
            m.append(decimal_text(min as u64).as_str());
            m.append(") cannot exceed max_dimensions (");
            m.append(decimal_text(max as u64).as_str());
            m.append(")");
            return Err(m);
        }
    }
    if let Some(bounds) = &rule.dimension_bounds {
        match check_all_bounds(rule.field_number, bounds) {
            Ok(_) => {},
            Err(e) => return Err(e),
        }
    }
    if let Some(shapes) = &rule.exact_shapes {
        return check_exacts(rule.field_number, shapes);
    }
    Ok(())
}

/// Checks a list of shape rules.
fn check_shape_rules(rules: &Vec<ShapeRule>) -> (r: Result<(), String>)
    ensures
        reports(r, shape_rules_error(rules@)),
{
    let mut i: usize = 0;
    assert(rules@.skip(0) =~= rules@);
    while i < rules.len()
        invariant
            i <= rules@.len(),
            shape_rules_error(rules@.skip(i as int)) == shape_rules_error(rules@),
        decreases rules@.len() - i,
    {
        assert(rules@.skip(i as int).skip(1) =~= rules@.skip(i + 1));
        match check_shape_rule(&rules[i]) {
            Ok(_) => {},
            Err(e) => return Err(e),
        }
        i = i + 1;
    }
    Ok(())
}

/// Whether a text is empty but for white space.
fn is_blank(s: &str) -> (blank: bool)
    ensures
        blank == (text::trimmed(s@).len() == 0),
{
    let chars: Vec<char> = chars_of(s);
    proof {
        text::trimmed_empty(s@);
    }
    let mut i: usize = 0;
    while i < chars.len()
        invariant
            chars@ == s@,
            i <= chars@.len(),
            forall|j: int| 0 <= j < i ==> text::white_space(chars@[j]),
            text::trimmed(s@).len() == 0 <==> forall|j: int|
                0 <= j < s@.len() ==> text::white_space(s@[j]),
        decreases chars@.len() - i,
    {
        if !is_white_space(chars[i]) {
            return false;
        }
        i = i + 1;
    }
    true
}

/// Checks that a policy makes sense. The message says what is wrong with the
/// first part that does not.
pub fn validate_policy(policy: &Policy) -> (r: Result<(), String>)
    ensures
        reports(r, policy_error(*policy)),
{
    if is_blank(policy.version.as_str()) {
        return Err("Policy version cannot be empty".to_owned());
    }
    if let Some(proto) = &policy.protobuf_rules {
        if let Some(max_varint) = proto.max_varint_bytes {
            if max_varint == 0 || max_varint > 10 {
                return Err("max_varint_bytes must be between 1 and 10".to_owned());
            }
        }
        if let Some(max_depth) = proto.max_recursion_depth {
            if max_depth > 100 {
                return Err("max_recursion_depth cannot exceed 100".to_owned());
            }
        }
        if let Some(rules) = &proto.shape_rules {
            return check_shape_rules(rules);
        }
    }
    Ok(())
}

// ---------------------------------------------------------------------------
// The form that packets are matched against
// ---------------------------------------------------------------------------

/// The rules by field number; of several rules for one field the last.
pub open spec fn rules_by_field(rules: Seq<ShapeRule>) -> Map<u32, ShapeRule>
    decreases rules.len(),
{
    if rules.len() == 0 {
        Map::empty()
    } else {
        rules_by_field(rules.drop_last()).insert(rules.last().field_number, rules.last())
    }
}

/// The rules for the payload as the engine uses them: the largest number of bytes
/// in a varint, the largest depth, the allow-list and the shape rules.
pub open spec fn payload_rules(policy: Policy) -> (
    usize,
    usize,
    Option<HashSet<u32>>,
    Map<u32, ShapeRule>,
) {
    match policy.protobuf_rules {
        None => (9, 3, None, Map::empty()),
        Some(rules) => (
            match rules.max_varint_bytes {
                Some(n) => n,
                None => 9,
            },
            match rules.max_recursion_depth {
                Some(n) => n,
                None => 3,
            },
            rules.field_allow_list,
            match rules.shape_rules {
                Some(list) => rules_by_field(list@),
                None => Map::empty(),
            },
        ),
    }
}

impl DynamicPolicy {
    /// This is the form of `policy` that packets are matched against.
    pub open spec fn prepared_from(self, policy: Policy) -> bool {
        let (max_varint_bytes, max_recursion_depth, field_allow_list, shape_rules) = payload_rules(
            policy,
        );
        &&& self.version@ == policy.version@
        &&& self.allowed_ports == policy.allowed_ports
        &&& self.blocked_ips@ == match policy.blocked_ips {
            Some(ips) => ips@,
            None => Set::empty(),
        }
        &&& self.max_varint_bytes == max_varint_bytes
        &&& self.max_recursion_depth == max_recursion_depth
        &&& self.field_allow_list == field_allow_list
        &&& self.shape_rules@ == shape_rules
    }

    /// Validates a policy and brings it into the form that packets are matched
    /// against.
    pub fn try_from(policy: Policy) -> (r: Result<DynamicPolicy, String>)
        ensures
            match r {
                Ok(prepared) => policy_error(policy) is None && prepared.prepared_from(policy),
                Err(e) => policy_error(policy) == Some(e@),
            },
    {
        broadcast use vstd::std_specs::hash::group_hash_axioms;

        match validate_policy(&policy) {
            Ok(_) => {},
            Err(e) => return Err(e),
        }
        let mut max_varint_bytes: usize = 9;
        let mut max_recursion_depth: usize = 3;
        let mut field_allow_list: Option<HashSet<u32>> = None;
        let mut shape_rules: HashMap<u32, ShapeRule> = HashMap::new();
        if let Some(proto) = policy.protobuf_rules {
            if let Some(n) = proto.max_varint_bytes {
                max_varint_bytes = n;
            }
            if let Some(n) = proto.max_recursion_depth {
                max_recursion_depth = n;
            }
            field_allow_list = proto.field_allow_list;
            if let Some(rules) = proto.shape_rules {
                shape_rules = index_rules(rules);
            }
        }
        let blocked_ips: HashSet<u32> = match policy.blocked_ips {
            Some(ips) => ips,
            None => HashSet::new(),
        };
        Ok(
            DynamicPolicy {
                version: policy.version,
                allowed_ports: policy.allowed_ports,
                blocked_ips,
                max_varint_bytes,
                max_recursion_depth,
                field_allow_list,
                shape_rules,
            },
        )
    }
}

/// The rules by field number; of several rules for one field the last.
fn index_rules(rules: Vec<ShapeRule>) -> (map: HashMap<u32, ShapeRule>)
    ensures
        map@ == rules_by_field(rules@),
{
    broadcast use vstd::std_specs::hash::group_hash_axioms;

    let mut map: HashMap<u32, ShapeRule> = HashMap::new();
    let ghost all = rules@;
    for rule in it: rules
        invariant
            it.seq() == all,
            map@ == rules_by_field(all.take(it.index() as int)),
    {
        proof {
            let i = it.index() as int;
            assert(all.take(i + 1).drop_last() =~= all.take(i));
        }
        map.insert(rule.field_number, rule);
    }
    assert(all.take(all.len() as int) =~= all);
    map
}

// ---------------------------------------------------------------------------
// Laws
// ---------------------------------------------------------------------------

/// A policy that passed validation allows varints of one to ten bytes and at
/// most a hundred levels of nesting.
pub proof fn prepared_limits(policy: Policy, prepared: DynamicPolicy)
    requires
        policy_error(policy) is None,
        prepared.prepared_from(policy),
    ensures
        1 <= prepared.max_varint_bytes <= 10,
        prepared.max_recursion_depth <= 100,
{
}

/// A field has a rule exactly where the list has one for it, the rule speaks of
/// that field, and it is the last one on the list that does.
pub proof fn last_rule_wins(rules: Seq<ShapeRule>, field: u32)
    ensures
        rules_by_field(rules).contains_key(field) <==> exists|i: int|
            0 <= i < rules.len() && (#[trigger] rules[i]).field_number == field,
        rules_by_field(rules).contains_key(field) ==> {
            &&& rules_by_field(rules)[field].field_number == field
            &&& exists|i: int|
                0 <= i < rules.len() && #[trigger] rules[i] == rules_by_field(rules)[field] && (
                forall|j: int| i < j < rules.len() ==> rules[j].field_number != field)
        },
    decreases rules.len(),
{
    if rules.len() > 0 {
        let front = rules.drop_last();
        last_rule_wins(front, field);
        assert(forall|i: int| 0 <= i < front.len() ==> front[i] == rules[i]);
        let last = rules.len() - 1;
        assert(rules[last] == rules.last());
        if rules.last().field_number != field {
            if rules_by_field(rules).contains_key(field) {
                let i = choose|i: int|
                    0 <= i < front.len() && #[trigger] front[i] == rules_by_field(front)[field]
                        && (forall|j: int| i < j < front.len() ==> front[j].field_number != field);
                assert(rules[i] == rules_by_field(rules)[field]);
            }
            if exists|i: int|
                0 <= i < rules.len() && (#[trigger] rules[i]).field_number == field {
                let i = choose|i: int|
                    0 <= i < rules.len() && (#[trigger] rules[i]).field_number == field;
                assert(front[i].field_number == field);
            }
        }
    }
}

/// A rule that passed validation can be met: its minima are not above its maxima,
/// and its shapes and bounds fit in the 16 dimensions that are collected.
pub proof fn valid_rule_is_consistent(rule: ShapeRule)
    requires
        shape_rule_error(rule) is None,
    ensures
        rule.min_dimensions is Some && rule.max_dimensions is Some ==> rule.min_dimensions->0
            <= rule.max_dimensions->0,
        rule.dimension_bounds matches Some(bounds) ==> forall|i: int|
            0 <= i < bounds@.len() ==> {
                &&& (#[trigger] bounds@[i]).index < 16
                &&& bounds@[i].min is Some && bounds@[i].max is Some ==> bounds@[i].min->0
                    <= bounds@[i].max->0
            },
        rule.exact_shapes matches Some(shapes) ==> forall|i: int|
            0 <= i < shapes@.len() ==> (#[trigger] shapes@[i])@.len() <= 16 && all_positive(
                shapes@[i]@,
            ),
{
    if let Some(bounds) = rule.dimension_bounds {
        no_bound_error(rule.field_number, bounds@);
    }
    if let Some(shapes) = rule.exact_shapes {
        no_exact_error(rule.field_number, shapes@);
    }
}

proof fn no_bound_error(field: u32, bounds: Seq<DimensionBound>)
    requires
        bounds_error(field, bounds) is None,
    ensures
        forall|i: int| 0 <= i < bounds.len() ==> bound_error(field, #[trigger] bounds[i]) is None,
    decreases bounds.len(),
{
    if bounds.len() > 0 {
        let rest = bounds.skip(1);
        no_bound_error(field, rest);
        assert(forall|i: int| 0 < i < bounds.len() ==> bounds[i] == rest[i - 1]);
    }
}

proof fn no_exact_error(field: u32, shapes: Seq<Vec<i64>>)
    requires
        exacts_error(field, shapes) is None,
    ensures
        forall|i: int| 0 <= i < shapes.len() ==> exact_error(field, (#[trigger] shapes[i])@) is None,
    decreases shapes.len(),
{
    if shapes.len() > 0 {
        let rest = shapes.skip(1);
        no_exact_error(field, rest);
        assert(forall|i: int| 0 < i < shapes.len() ==> shapes[i] == rest[i - 1]);
    }
}

/// What a policy gives is what its packets are matched against: each limit, list and
/// set that is written down is the one in force, and what is not written down limits
/// nothing, but for nine bytes in a varint and three levels of nesting.
pub proof fn given_limits_are_in_force(policy: Policy, prepared: DynamicPolicy)
    requires
        prepared.prepared_from(policy),
    ensures
        prepared.version@ == policy.version@,
        policy.protobuf_rules matches Some(rules) ==> {
            &&& rules.max_recursion_depth matches Some(n) ==> prepared.max_recursion_depth == n
            &&& rules.max_recursion_depth is None ==> prepared.max_recursion_depth == 3
            &&& rules.max_varint_bytes matches Some(n) ==> prepared.max_varint_bytes == n
            &&& rules.max_varint_bytes is None ==> prepared.max_varint_bytes == 9
            &&& rules.field_allow_list is Some <==> prepared.field_allow_list is Some
            &&& rules.field_allow_list matches Some(list) ==> forall|field: u32| #[trigger]
                prepared.field_allow_list->0@.contains(field) <==> list@.contains(field)
            &&& rules.shape_rules is None ==> forall|field: u32|
                !(#[trigger] prepared.shape_rules@.contains_key(field))
            &&& rules.shape_rules matches Some(list) ==> {
                &&& forall|field: u32| #[trigger]
                    prepared.shape_rules@.contains_key(field) <==> exists|i: int|
                        0 <= i < list@.len() && (#[trigger] list@[i]).field_number == field
                &&& forall|i: int|
                    0 <= i < list@.len() && (forall|j: int|
                        i < j < list@.len() ==> list@[j].field_number != list@[i].field_number)
                        ==> prepared.shape_rules@[(#[trigger] list@[i]).field_number] == list@[i]
            }
        },
        policy.protobuf_rules is None ==> {
            &&& prepared.max_recursion_depth == 3
            &&& prepared.max_varint_bytes == 9
            &&& prepared.field_allow_list is None
            &&& forall|field: u32| !(#[trigger] prepared.shape_rules@.contains_key(field))
        },
        policy.allowed_ports is Some <==> prepared.allowed_ports is Some,
        policy.allowed_ports matches Some(ports) ==> forall|port: u16| #[trigger]
            prepared.allowed_ports->0@.contains(port) <==> ports@.contains(port),
        forall|ip: u32| #[trigger]
            prepared.blocked_ips@.contains(ip) <==> policy.blocked_ips is Some
                && policy.blocked_ips->0@.contains(ip),
{
    if let Some(rules) = policy.protobuf_rules {
        if let Some(list) = rules.shape_rules {
            let all = list@;
            assert forall|field: u32| #[trigger]
                prepared.shape_rules@.contains_key(field) <==> exists|i: int|
                    0 <= i < all.len() && (#[trigger] all[i]).field_number == field by {
                last_rule_wins(all, field);
            }
            assert forall|i: int|
                0 <= i < all.len() && (forall|j: int|
                    i < j < all.len() ==> all[j].field_number != all[i].field_number)
                implies prepared.shape_rules@[(#[trigger] all[i]).field_number] == all[i] by {
                let field = all[i].field_number;
                last_rule_wins(all, field);
                let k = choose|k: int|
                    0 <= k < all.len() && #[trigger] all[k] == rules_by_field(all)[field] && (
                    forall|j: int| k < j < all.len() ==> all[j].field_number != field);
                assert(k == i);
            }
        }
    }
}

/// A bound of a rule makes sense: it speaks of one of the 16 dimensions that are
/// collected, and leaves room between its ends.
pub open spec fn sensible_bound(bound: DimensionBound) -> bool {
    &&& bound.index < 16
    &&& bound.min is Some && bound.max is Some ==> bound.min->0 <= bound.max->0
}

/// A shape on a list makes sense: a packet can have it.
pub open spec fn sensible_shape(shape: Seq<i64>) -> bool {
    shape.len() <= 16 && forall|i: int| 0 <= i < shape.len() ==> shape[i] > 0
}

/// A shape rule makes sense.
pub open spec fn sensible_rule(rule: ShapeRule) -> bool {
    &&& rule.min_dimensions is Some && rule.max_dimensions is Some ==> rule.min_dimensions->0
        <= rule.max_dimensions->0
    &&& rule.dimension_bounds matches Some(bounds) ==> forall|i: int|
        0 <= i < bounds@.len() ==> sensible_bound(#[trigger] bounds@[i])
    &&& rule.exact_shapes matches Some(shapes) ==> forall|i: int|
        0 <= i < shapes@.len() ==> sensible_shape((#[trigger] shapes@[i])@)
}

/// A policy is accepted exactly where its version holds more than white space, its
/// limits for the payload are in range and every one of its shape rules makes sense.
pub proof fn sensible_policies_are_accepted(policy: Policy)
    ensures
        policy_error(policy) is None <==> {
            &&& exists|i: int|
                0 <= i < policy.version@.len() && !text::white_space(#[trigger] policy.version@[i])
            &&& policy.protobuf_rules matches Some(rules) ==> {
                &&& rules.max_varint_bytes matches Some(n) ==> 1 <= n <= 10
                &&& rules.max_recursion_depth matches Some(n) ==> n <= 100
                &&& rules.shape_rules matches Some(list) ==> forall|i: int|
                    0 <= i < list@.len() ==> sensible_rule(#[trigger] list@[i])
            }
        },
{
    text::trimmed_empty(policy.version@);
    if let Some(rules) = policy.protobuf_rules {
        if let Some(list) = rules.shape_rules {
            sensible_rules_are_accepted(list@);
        }
    }
}

proof fn sensible_rules_are_accepted(rules: Seq<ShapeRule>)
    ensures
        shape_rules_error(rules) is None <==> forall|i: int|
            0 <= i < rules.len() ==> sensible_rule(#[trigger] rules[i]),
    decreases rules.len(),
{
    if rules.len() > 0 {
        sensible_rule_is_accepted(rules[0]);
        let rest = rules.skip(1);
        sensible_rules_are_accepted(rest);
        assert(forall|i: int| 0 < i < rules.len() ==> rules[i] == rest[i - 1]);
        assert(forall|i: int| 0 <= i < rest.len() ==> rest[i] == rules[i + 1]);
    }
}

/// A shape rule is accepted exactly where it makes sense.
pub proof fn sensible_rule_is_accepted(rule: ShapeRule)
    ensures
        shape_rule_error(rule) is None <==> sensible_rule(rule),
{
    if let Some(bounds) = rule.dimension_bounds {
        sensible_bounds_are_accepted(rule.field_number, bounds@);
    }
    if let Some(shapes) = rule.exact_shapes {
        sensible_shapes_are_accepted(rule.field_number, shapes@);
    }
}

proof fn sensible_bounds_are_accepted(field: u32, bounds: Seq<DimensionBound>)
    ensures
        bounds_error(field, bounds) is None <==> forall|i: int|
            0 <= i < bounds.len() ==> sensible_bound(#[trigger] bounds[i]),
    decreases bounds.len(),
{
    if bounds.len() > 0 {
        let rest = bounds.skip(1);
        sensible_bounds_are_accepted(field, rest);
        assert(sensible_bound(bounds[0]) <==> bound_error(field, bounds[0]) is None);
        assert(forall|i: int| 0 < i < bounds.len() ==> bounds[i] == rest[i - 1]);
        assert(forall|i: int| 0 <= i < rest.len() ==> rest[i] == bounds[i + 1]);
    }
}

proof fn sensible_shapes_are_accepted(field: u32, shapes: Seq<Vec<i64>>)
    ensures
        exacts_error(field, shapes) is None <==> forall|i: int|
            0 <= i < shapes.len() ==> sensible_shape((#[trigger] shapes[i])@),
    decreases shapes.len(),
{
    if shapes.len() > 0 {
        let rest = shapes.skip(1);
        sensible_shapes_are_accepted(field, rest);
        assert(sensible_shape(shapes[0]@) <==> exact_error(field, shapes[0]@) is None);
        assert(forall|i: int| 0 < i < shapes.len() ==> shapes[i] == rest[i - 1]);
        assert(forall|i: int| 0 <= i < rest.len() ==> rest[i] == shapes[i + 1]);
    }
}

/// Policies that say the same agree in every part.
pub proof fn same_policies_agree(a: DynamicPolicy, b: DynamicPolicy)
    requires
        a.same_as(b),
    ensures
        a.version@ == b.version@,
        a.allowed_ports is Some <==> b.allowed_ports is Some,
        a.allowed_ports is Some ==> a.allowed_ports->0@ == b.allowed_ports->0@,
        a.blocked_ips@ == b.blocked_ips@,
        a.max_varint_bytes == b.max_varint_bytes,
        a.max_recursion_depth == b.max_recursion_depth,
        a.field_allow_list is Some <==> b.field_allow_list is Some,
        a.field_allow_list is Some ==> a.field_allow_list->0@ == b.field_allow_list->0@,
        forall|f: u32| #[trigger]
            b.shape_rules@.contains_key(f) ==> a.shape_rules@.contains_key(f) && ({
                let (x, y) = (a.shape_rules@[f], b.shape_rules@[f]);
                &&& x.field_number == y.field_number
                &&& x.min_dimensions == y.min_dimensions
                &&& x.max_dimensions == y.max_dimensions
                &&& x.max_tensor_elements == y.max_tensor_elements
                &&& x.exact_shapes is Some <==> y.exact_shapes is Some
                &&& x.exact_shapes is Some ==> x.exact_shapes->0@.len() == y.exact_shapes->0@.len()
                &&& x.dimension_bounds is Some <==> y.dimension_bounds is Some
                &&& x.dimension_bounds is Some ==> x.dimension_bounds->0@
                    == y.dimension_bounds->0@
            }),
        a.shape_rules@.len() == b.shape_rules@.len(),
{
    assert(a.shape_rules@.dom() == b.shape_rules@.dom());
    assert forall|f: u32| #[trigger] b.shape_rules@.contains_key(f) implies
        a.shape_rules@.contains_key(f) by {
        assert(b.shape_rules@.dom().contains(f));
        assert(a.shape_rules@.dom().contains(f));
    }
}

/// What is wrong with a policy is reported of the first part that is not right: the
/// version, the bytes of a varint, the depth, then the shape rules in their order, and in
/// a rule its limits, its bounds and its shapes.
pub proof fn first_problem_is_reported(policy: Policy, i: int)
    ensures
        (forall|k: int|
            0 <= k < policy.version@.len() ==> text::white_space(#[trigger] policy.version@[k]))
            ==> policy_error(policy) == Some("Policy version cannot be empty"@),
        (exists|k: int|
            0 <= k < policy.version@.len() && !text::white_space(#[trigger] policy.version@[k]))
            && policy.protobuf_rules is Some ==> {
            let rules = policy.protobuf_rules->0;
            let varint_fits = rules.max_varint_bytes matches Some(n) ==> 1 <= n <= 10;
            let depth_fits = rules.max_recursion_depth matches Some(n) ==> n <= 100;
            &&& !varint_fits ==> policy_error(policy) == Some(
                "max_varint_bytes must be between 1 and 10"@,
            )
            &&& varint_fits && !depth_fits ==> policy_error(policy) == Some(
                "max_recursion_depth cannot exceed 100"@,
            )
            &&& varint_fits && depth_fits && rules.shape_rules is Some && 0 <= i
                < rules.shape_rules->0@.len() && !sensible_rule(rules.shape_rules->0@[i]) && (
            forall|j: int| 0 <= j < i ==> sensible_rule(#[trigger] rules.shape_rules->0@[j]))
                ==> policy_error(policy) == shape_rule_error(rules.shape_rules->0@[i])
        },
{
    text::trimmed_empty(policy.version@);
    if let Some(rules) = policy.protobuf_rules {
        if let Some(list) = rules.shape_rules {
            if 0 <= i < list@.len() && !sensible_rule(list@[i]) && (forall|j: int|
                0 <= j < i ==> sensible_rule(#[trigger] list@[j])) {
                first_bad_rule_is_reported(list@, i);
            }
        }
    }
}

proof fn first_bad_rule_is_reported(rules: Seq<ShapeRule>, i: int)
    requires
        0 <= i < rules.len(),
        !sensible_rule(rules[i]),
        forall|j: int| 0 <= j < i ==> sensible_rule(#[trigger] rules[j]),
    ensures
        shape_rules_error(rules) == shape_rule_error(rules[i]),
    decreases rules.len(),
{
    sensible_rule_is_accepted(rules[0]);
    if i > 0 {
        let rest = rules.skip(1);
        assert(forall|j: int| 0 <= j < rest.len() ==> rest[j] == rules[j + 1]);
        first_bad_rule_is_reported(rest, i - 1);
    }
}

/// A rule whose limits cross is reported with both of them; only then its bounds and its
/// shapes are looked at.
pub proof fn crossed_limits_are_reported(rule: ShapeRule, min: usize, max: usize)
    requires
        rule.min_dimensions == Some(min),
        rule.max_dimensions == Some(max),
        min > max,
    ensures
        shape_rule_error(rule) == Some(
            "Shape rule for field "@ + text::decimal(rule.field_number as nat)
                + ": min_dimensions ("@ + text::decimal(min as nat)
                + ") cannot exceed max_dimensions ("@ + text::decimal(max as nat) + ")"@,
        ),
{
}

/// What is wrong with a bound is reported with its field and index: an index beyond the
/// dimensions that are collected, or ends that cross, the lower one first.
pub proof fn bad_bound_is_reported(field: u32, bound: DimensionBound, min: i64, max: i64)
    ensures
        bound.index >= 16 ==> bound_error(field, bound) == Some(
            "Dimension bound index "@ + text::decimal(bound.index as nat) + " for field "@
                + text::decimal(field as nat) + " exceeds maximum supported dimensions (16)"@,
        ),
        bound.index < 16 && bound.min == Some(min) && bound.max == Some(max) && min > max
            ==> bound_error(field, bound) == Some(
            "Dimension bound for field "@ + text::decimal(field as nat) + " index "@
                + text::decimal(bound.index as nat) + ": min ("@ + text::signed_decimal(min as int)
                + ") cannot exceed max ("@ + text::signed_decimal(max as int) + ")"@,
        ),
{
}

/// What is wrong with a shape on a list is reported with the shape and its field: too many
/// dimensions, or one that is not positive.
pub proof fn bad_shape_is_reported(field: u32, shape: Seq<i64>, i: int)
    ensures
        shape.len() > 16 ==> exact_error(field, shape) == Some(
            "Exact shape "@ + text::list_notation(shape) + " for field "@ + text::decimal(
                field as nat,
            ) + " exceeds maximum supported dimensions (16)"@,
        ),
        shape.len() <= 16 && 0 <= i < shape.len() && shape[i] <= 0 ==> exact_error(field, shape)
            == Some(
            "Exact shape "@ + text::list_notation(shape) + " for field "@ + text::decimal(
                field as nat,
            ) + " contains non-positive dimensions"@,
        ),
{
}

} // verus!
