//! The settings of a worker: what is checked before it starts, and the rules it
//! ends up with.
use crate::protobuf::ValidationConfig;
use vstd::prelude::*;

verus! {

/// Checks that not both ways to hand packets over were asked for.
pub fn check_copy_flags(force_copy: bool, force_zerocopy: bool) -> (r: Result<(), String>)
    ensures
        r is Err <==> force_copy && force_zerocopy,
        r is Err ==> r->Err_0@ == "Cannot specify both --force-copy and --force-zerocopy"@,
{
    if force_copy && force_zerocopy {
        Err("Cannot specify both --force-copy and --force-zerocopy".to_owned())
    } else {
        Ok(())
    }
}

/// `n` is a power of two.
pub open spec fn power_of_two(n: nat) -> bool {
    exists|k: nat| n == #[trigger] vstd::arithmetic::power2::pow2(k)
}

/// Halving an even number neither makes it a power of two nor stops it from being
/// one.
proof fn half_is_power_of_two(n: nat)
    requires
        n > 0,
    ensures
        n % 2 == 0 ==> power_of_two(n) == power_of_two(n / 2),
        n % 2 == 1 ==> power_of_two(n) == (n == 1),
{
    broadcast use vstd::arithmetic::power2::lemma_pow2_unfold;

    vstd::arithmetic::power2::lemma2_to64();
    if power_of_two(n) {
        let k = choose|k: nat| n == #[trigger] vstd::arithmetic::power2::pow2(k);
        if k > 0 {
            assert(n == 2 * vstd::arithmetic::power2::pow2((k - 1) as nat));
        }
    }
    if n % 2 == 0 && power_of_two(n / 2) {
        let k = choose|k: nat| n / 2 == #[trigger] vstd::arithmetic::power2::pow2(k);
        assert(vstd::arithmetic::power2::pow2(k + 1) == 2 * vstd::arithmetic::power2::pow2(k));
    }
    if n == 1 {
        assert(vstd::arithmetic::power2::pow2(0) == 1);
    }
}

/// Whether a number is a power of two.
pub fn is_power_of_two(n: u32) -> (yes: bool)
    ensures
        yes == power_of_two(n as nat),
{
    if n == 0 {
        proof {
            if power_of_two(0) {
                let k = choose|k: nat| 0 == #[trigger] vstd::arithmetic::power2::pow2(k);
                vstd::arithmetic::power2::lemma_pow2_pos(k);
            }
        }
        return false;
    }
    let mut m: u32 = n;
    while m % 2 == 0
        invariant
            m > 0,
            power_of_two(n as nat) == power_of_two(m as nat),
        decreases m,
    {
        proof {
            half_is_power_of_two(m as nat);
        }
        m = m / 2;
    }
    proof {
        half_is_power_of_two(m as nat);
    }
    m == 1
}

/// Checks the number of frames of a worker.
pub fn check_frame_count(frame_count: u32) -> (r: Result<(), String>)
    ensures
        r is Ok <==> power_of_two(frame_count as nat),
        r is Err ==> r->Err_0@ == "--frame-count must be a non-zero power of two"@,
{
    if is_power_of_two(frame_count) {
        Ok(())
    } else {
        Err("--frame-count must be a non-zero power of two".to_owned())
    }
}

/// Rules that were given by hand.
#[derive(Clone, Copy, Debug, PartialEq, Eq)]
pub struct RuleOverrides {
    pub target_port: Option<u16>,
    pub shape_field: Option<u32>,
    pub max_dims: Option<usize>,
    pub max_elements: Option<u64>,
    pub max_depth: Option<usize>,
}

/// What was given by hand, else what was there.
pub open spec fn given_or<T>(given: Option<T>, there: T) -> T {
    match given {
        Some(x) => x,
        None => there,
    }
}

/// The rules that a worker ends up with: those of its file, else the usual ones,
/// and what was given by hand goes before both.
pub fn effective_rules(file: Option<ValidationConfig>, given: &RuleOverrides) -> (config:
    ValidationConfig)
    ensures
        ({
            let base = match file {
                Some(config) => config,
                None => ValidationConfig::usual(),
            };
            config == (ValidationConfig {
                target_port: given_or(given.target_port, base.target_port),
                shape_field_number: given_or(given.shape_field, base.shape_field_number),
                max_dimensions: given_or(given.max_dims, base.max_dimensions),
                max_tensor_elements: given_or(given.max_elements, base.max_tensor_elements),
                max_recursion_depth: given_or(given.max_depth, base.max_recursion_depth),
                ..base
            })
        }),
        given.target_port matches Some(port) ==> config.target_port == port,
        given.shape_field matches Some(field) ==> config.shape_field_number == field,
        given.max_dims matches Some(dims) ==> config.max_dimensions == dims,
        given.max_elements matches Some(elements) ==> config.max_tensor_elements == elements,
        given.max_depth matches Some(depth) ==> config.max_recursion_depth == depth,
        file matches Some(base) ==> config.max_varint_bytes == base.max_varint_bytes,
{
    let mut config: ValidationConfig = match file {
        Some(config) => config,
        None => ValidationConfig::default(),
    };
    if let Some(port) = given.target_port {
        config.target_port = port;
    }
    if let Some(field) = given.shape_field {
        config.shape_field_number = field;
    }
    if let Some(dims) = given.max_dims {
        config.max_dimensions = dims;
    }
    if let Some(elements) = given.max_elements {
        config.max_tensor_elements = elements;
    }
    if let Some(depth) = given.max_depth {
        config.max_recursion_depth = depth;
    }
    config
}

// ---------------------------------------------------------------------------
// Laws
// ---------------------------------------------------------------------------

/// What was given by hand goes before what was there, which stays where nothing was
/// given.
pub proof fn given_goes_first<T>(given: T, there: T)
    ensures
        given_or(Some(given), there) == given,
        given_or(None, there) == there,
{
}

/// A number is a power of two exactly where it is one, or where it is even and half of
/// it is a power of two.
pub proof fn powers_of_two_double(n: nat)
    requires
        n > 0,
    ensures
        power_of_two(n) <==> n == 1 || (n % 2 == 0 && power_of_two(n / 2)),
        !power_of_two(0),
{
    half_is_power_of_two(n);
    if power_of_two(0) {
        let k = choose|k: nat| 0 == #[trigger] vstd::arithmetic::power2::pow2(k);
        vstd::arithmetic::power2::lemma_pow2_pos(k);
    }
    if n == 1 {
        assert(n % 2 == 1);
    }
}

} // verus!
