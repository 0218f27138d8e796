//! Settings of a worker.
use custos::protobuf::ValidationConfig;
use custos::settings::{
    check_copy_flags, check_frame_count, effective_rules, is_power_of_two, RuleOverrides,
};

fn none_given() -> RuleOverrides {
    RuleOverrides {
        target_port: None,
        shape_field: None,
        max_dims: None,
        max_elements: None,
        max_depth: None,
    }
}

#[test]
fn flags_exclude_each_other() {
    assert_eq!(check_copy_flags(true, false), Ok(()));
    assert_eq!(check_copy_flags(false, true), Ok(()));
    assert_eq!(
        check_copy_flags(true, true),
        Err("Cannot specify both --force-copy and --force-zerocopy".to_string())
    );
}

#[test]
fn powers_of_two() {
    for n in 0..5000u32 {
        assert_eq!(is_power_of_two(n), n.is_power_of_two());
    }
    assert!(is_power_of_two(1 << 31));
    assert!(!is_power_of_two(u32::MAX));
    assert_eq!(check_frame_count(2048), Ok(()));
    assert_eq!(
        check_frame_count(0),
        Err("--frame-count must be a non-zero power of two".to_string())
    );
    assert!(check_frame_count(2047).is_err());
}

#[test]
fn rules_given_by_hand_go_first() {
    let usual = effective_rules(None, &none_given());
    assert_eq!(usual.target_port, 50051);
    assert_eq!(usual.max_recursion_depth, 3);

    let mut file = ValidationConfig::default();
    file.target_port = 1;
    file.max_varint_bytes = 5;
    file.max_dimensions = 2;
    let mut given = none_given();
    given.target_port = Some(2);
    given.max_elements = Some(10);
    given.shape_field = Some(3);
    given.max_depth = Some(1);
    let rules = effective_rules(Some(file), &given);
    assert_eq!(rules.target_port, 2);
    assert_eq!(rules.max_varint_bytes, 5);
    assert_eq!(rules.max_dimensions, 2);
    assert_eq!(rules.max_tensor_elements, 10);
    assert_eq!(rules.shape_field_number, 3);
    assert_eq!(rules.max_recursion_depth, 1);
}
