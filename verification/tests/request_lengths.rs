use yserver::request_lengths::{core_request_length, validate_core_request_length, LenSpec};

#[test]
fn fixed_opcode_rejects_under_and_over() {
    // GetGeometry is fixed at 2 units.
    assert!(!validate_core_request_length(14, 1));
    assert!(validate_core_request_length(14, 2));
    assert!(!validate_core_request_length(14, 3));
}

#[test]
fn variable_opcode_rejects_under_only() {
    // CreateWindow is at least 8 units.
    assert!(!validate_core_request_length(1, 7));
    assert!(validate_core_request_length(1, 8));
    assert!(validate_core_request_length(1, 100));
}

#[test]
fn extension_opcodes_pass_through() {
    // 128+ are extensions; we don't enforce here.
    assert!(core_request_length(128).is_none());
    assert!(core_request_length(146).is_none());
    assert!(validate_core_request_length(128, 1));
}

#[test]
fn alloc_color_is_fixed_4() {
    assert_eq!(core_request_length(84), Some(LenSpec::Fixed(4)));
}

#[test]
fn send_event_is_fixed_11() {
    assert_eq!(core_request_length(25), Some(LenSpec::Fixed(11)));
}

#[test]
fn every_core_opcode_has_a_length() {
    for opcode in 1..=119u8 {
        assert!(core_request_length(opcode).is_some(), "opcode {opcode}");
    }
    for opcode in 120..=126u8 {
        assert_eq!(core_request_length(opcode), None);
    }
    assert_eq!(core_request_length(127), Some(LenSpec::AtLeast(1)));
    assert_eq!(core_request_length(0), None);
}

#[test]
fn the_fixed_part_is_the_shortest_valid_length() {
    for opcode in 0..=255u8 {
        match core_request_length(opcode) {
            Some(LenSpec::Fixed(n)) => {
                assert!(validate_core_request_length(opcode, n));
                assert!(!validate_core_request_length(opcode, n - 1));
                assert!(!validate_core_request_length(opcode, n + 1));
            }
            Some(LenSpec::AtLeast(n)) => {
                assert!(validate_core_request_length(opcode, n));
                assert!(!validate_core_request_length(opcode, n - 1));
                assert!(validate_core_request_length(opcode, u32::MAX));
            }
            None => {
                assert!(validate_core_request_length(opcode, 0));
                assert!(validate_core_request_length(opcode, u32::MAX));
            }
        }
    }
}
