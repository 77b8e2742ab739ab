use exam_monitor_core::room::{
    generate_join_code, join_code_from_clock, join_code_from_seed, port_for_code, prepare_join_code, JoinCodeError,
    JOIN_CODE_ALPHABET,
};

#[test]
fn port_for_code_is_deterministic_and_in_range() {
    for code in ["N7KU", "MATH", "AAAA", "ZZ99", "7GK4"] {
        let port = port_for_code(code);
        assert_eq!(port, port_for_code(code), "must be stable");
        assert!((20_000..=44_999).contains(&port), "{code} -> {port} out of range");
    }
}

#[test]
fn port_for_code_ignores_case_and_padding() {
    assert_eq!(port_for_code("math"), port_for_code("MATH"));
    assert_eq!(port_for_code("  MATH \n"), port_for_code("MATH"));
}

#[test]
fn port_for_code_separates_distinct_codes() {
    let codes = ["N7KU", "MATH", "AAAA", "ZZ99", "7GK4", "ABCD"];
    let mut ports: Vec<u16> = codes.iter().map(|c| port_for_code(c)).collect();
    ports.sort_unstable();
    ports.dedup();
    assert_eq!(ports.len(), codes.len(), "codes collided on a port");
}

#[test]
fn port_vectors_match_the_swift_implementation() {
    assert_eq!(port_for_code("N7KU"), 38_242);
    assert_eq!(port_for_code("MATH"), 34_703);
    assert_eq!(port_for_code("AAAA"), 37_697);
}

#[test]
fn more_port_vectors() {
    assert_eq!(port_for_code("ZZ99"), 39_175);
    assert_eq!(port_for_code("TEST"), 44_509);
    assert_eq!(port_for_code(""), 20_000 + (2_166_136_261u32 % 25_000) as u16);
}

#[test]
fn join_codes_follow_the_seed() {
    assert_eq!(join_code_from_seed(1), "BBKF");
    assert_eq!(join_code_from_seed(12_345), "3FT2");
    assert_eq!(join_code_from_seed(0xdead_beef), "UQB6");
}

#[test]
fn clock_readings_become_odd_seeds() {
    assert_eq!(join_code_from_clock(Some(12_344)), join_code_from_seed(12_345));
    assert_eq!(join_code_from_clock(Some(12_345)), join_code_from_seed(12_345));
    // Only the low 64 bits of the nanoseconds count.
    assert_eq!(join_code_from_clock(Some((1u128 << 64) + 12_344)), join_code_from_seed(12_345));
    // A clock before the epoch seeds with 1.
    assert_eq!(join_code_from_clock(None), join_code_from_seed(1));
    assert_eq!(join_code_from_clock(None), "BBKF");
}

#[test]
fn generated_codes_use_the_unambiguous_alphabet() {
    for _ in 0..20 {
        let code = generate_join_code();
        assert_eq!(code.chars().count(), 4);
        assert!(code.chars().all(|c| JOIN_CODE_ALPHABET.contains(&c)), "{code}");
        assert!(!code.contains(['0', 'O', '1', 'I']));
    }
}

#[test]
fn typed_codes_are_normalised_before_deriving_the_port() {
    let target = prepare_join_code("  7gk4 ").unwrap();
    assert_eq!(target.join_code, "7GK4");
    assert_eq!(target.port, port_for_code("7GK4"));
    assert!(matches!(prepare_join_code(" \t"), Err(JoinCodeError::Empty)));
    assert_eq!(
        JoinCodeError::Empty.message(),
        "enter the class code shown on the teacher's screen"
    );
}
