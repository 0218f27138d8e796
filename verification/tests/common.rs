//! Modes and Ethernet addresses.
use custos::common::{swap_macs, unknown_mode_message, OperationMode};

#[test]
fn modes_have_names() {
    for mode in [
        OperationMode::Drop,
        OperationMode::Forward,
        OperationMode::Echo,
    ] {
        assert_eq!(OperationMode::from_str(&mode.to_text()), Ok(mode));
    }
    assert_eq!(OperationMode::Drop.to_text(), "drop");
    assert_eq!(OperationMode::Forward.to_text(), "forward");
    assert_eq!(OperationMode::Echo.to_text(), "echo");
}

#[test]
fn unknown_modes_are_quoted() {
    assert_eq!(
        OperationMode::from_str("Echo"),
        Err("unknown operation mode \"Echo\"; expected one of: drop, forward, echo".to_string())
    );
    assert_eq!(
        OperationMode::from_str("a\"b\n"),
        Err("unknown operation mode \"a\\\"b\\n\"; expected one of: drop, forward, echo".to_string())
    );
    assert_eq!(
        unknown_mode_message("<x>"),
        "unknown operation mode <x>; expected one of: drop, forward, echo"
    );
}

#[test]
fn addresses_are_swapped_in_place() {
    let mut packet: Vec<u8> = (0..20).collect();
    swap_macs(&mut packet);
    assert_eq!(
        packet,
        vec![6, 7, 8, 9, 10, 11, 0, 1, 2, 3, 4, 5, 12, 13, 14, 15, 16, 17, 18, 19]
    );
    swap_macs(&mut packet);
    assert_eq!(packet, (0..20).collect::<Vec<u8>>());
    let mut short: Vec<u8> = (0..11).collect();
    swap_macs(&mut short);
    assert_eq!(short, (0..11).collect::<Vec<u8>>());
}
