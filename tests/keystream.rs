use ca_pad::automaton::{create_pad, rotate_left_u32, rotate_right_u32, transition, u32_to_4_u8};
use ca_pad::rule::{build_rule, rotate_right_u8};

#[test]
fn rule_110_table() {
    assert_eq!(build_rule(110), [0, 1, 1, 1, 0, 1, 1, 0]);
}

#[test]
fn rule_30_table() {
    assert_eq!(build_rule(30), [0, 1, 1, 1, 1, 0, 0, 0]);
}

#[test]
fn rule_table_extremes() {
    assert_eq!(build_rule(0), [0; 8]);
    assert_eq!(build_rule(255), [1; 8]);
    assert_eq!(build_rule(128), [0, 0, 0, 0, 0, 0, 0, 1]);
}

#[test]
fn rotations_wrap() {
    assert_eq!(rotate_right_u8(0b0000_0001, 1), 0b1000_0000);
    assert_eq!(rotate_right_u8(110, 0), 110);
    assert_eq!(rotate_left_u32(0x8000_0000, 1), 1);
    assert_eq!(rotate_right_u32(1, 1), 0x8000_0000);
    assert_eq!(rotate_right_u32(0x1234_5678, 0), 0x1234_5678);
    assert_eq!(rotate_left_u32(0x1234_5678, 8), 0x3456_7812);
}

#[test]
fn bytes_little_endian() {
    assert_eq!(u32_to_4_u8(0x1234_5678), [0x78, 0x56, 0x34, 0x12]);
    assert_eq!(u32_to_4_u8(1), [1, 0, 0, 0]);
}

#[test]
fn zero_iterations_emit_initial_register() {
    assert_eq!(create_pad(4, 110, 0), vec![0x01, 0x00, 0x00, 0x00]);
}

#[test]
fn emission_truncates_mid_group() {
    assert_eq!(create_pad(6, 110, 0), vec![1, 0, 0, 0, 1, 0]);
}

#[test]
fn single_transition_rule_110() {
    assert_eq!(transition(1, build_rule(110)), 3);
    assert_eq!(create_pad(4, 110, 1), vec![3, 0, 0, 0]);
}

#[test]
fn transition_wraps_at_register_ends() {
    assert_eq!(transition(0x8000_0000, build_rule(110)), 0x8000_0001);
    assert_eq!(transition(0xdead_beef, build_rule(30)), 279_519_368);
    assert_eq!(transition(u32::MAX, build_rule(110)), 0);
}

#[test]
fn rule_30_after_100_generations() {
    assert_eq!(
        create_pad(12, 30, 100),
        vec![175, 95, 185, 208, 175, 95, 185, 208, 175, 95, 185, 208]
    );
}

#[test]
fn default_parameters_keystream() {
    assert_eq!(create_pad(8, 110, 1024), vec![185, 137, 175, 143, 185, 137, 175, 143]);
}

#[test]
fn empty_pad() {
    assert!(create_pad(0, 110, 1024).is_empty());
    assert!(create_pad(0, 30, 0).is_empty());
}

#[test]
fn pad_has_requested_length() {
    for n in [0usize, 1, 3, 4, 5, 8, 17, 100] {
        assert_eq!(create_pad(n, 90, 7).len(), n);
    }
}

#[test]
fn pad_is_deterministic() {
    assert_eq!(create_pad(37, 30, 100), create_pad(37, 30, 100));
    assert_eq!(create_pad(9, 110, 1024), create_pad(9, 110, 1024));
}

#[test]
fn pad_repeats_every_four_bytes() {
    let pad = create_pad(23, 45, 64);
    for p in 0..pad.len() - 4 {
        assert_eq!(pad[p], pad[p + 4]);
    }
}
