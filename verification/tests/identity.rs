use exam_monitor_core::identity::{evidence_label, identity_key, identity_payload, parse_identity};

#[test]
fn identity_round_trip_carries_join_code() {
    let payload = identity_payload("7GK4", "Ada Lovelace", "STU-001");
    assert_eq!(
        parse_identity(&payload),
        (
            String::from("7GK4"),
            String::from("Ada Lovelace"),
            String::from("STU-001"),
        )
    );
}

#[test]
fn identity_strips_pipes_so_names_cannot_shift_fields() {
    // A name containing the field separator must not corrupt the parse.
    let payload = identity_payload("7GK4", "Smith | Jr", "STU-2");
    let (code, name, id) = parse_identity(&payload);
    assert_eq!(code, "7GK4");
    assert_eq!(name, "Smith   Jr");
    assert_eq!(id, "STU-2");
}

#[test]
fn identity_parser_tolerates_missing_fields() {
    // A payload with only a code (no name/id) still parses without panic.
    assert_eq!(
        parse_identity(b"7GK4"),
        (String::from("7GK4"), String::from("Unknown"), String::new())
    );
}

#[test]
fn identity_payload_is_the_utf8_of_the_joined_fields() {
    assert_eq!(identity_payload("", "Zoë", "a|b"), "|Zoë|a b".as_bytes());
}

#[test]
fn parser_keeps_pipes_after_the_second_one_in_the_id() {
    assert_eq!(
        parse_identity(b"C|N|x|y"),
        (String::from("C"), String::from("N"), String::from("x|y"))
    );
    assert_eq!(
        parse_identity(b"C|"),
        (String::from("C"), String::new(), String::new())
    );
}

#[test]
fn invalid_utf8_is_replaced_not_rejected() {
    assert_eq!(
        parse_identity(&[0xff, b'|', b'A']),
        (String::from("\u{FFFD}"), String::from("A"), String::new())
    );
}

#[test]
fn identity_key_falls_back_to_name_without_a_student_id() {
    assert_eq!(identity_key("Ada", "STU-1"), "STU-1");
    assert_eq!(identity_key("Ada", ""), "Ada");
    assert_eq!(identity_key("  Ada  ", ""), "Ada");
    assert_eq!(identity_key("", ""), "");
}

#[test]
fn evidence_label_prefers_a_readable_name_over_a_device_id() {
    assert_eq!(evidence_label("Ada", "STU-1"), "STU-1");
    assert_eq!(evidence_label("Ada", "dev:abc123"), "Ada");
    assert_eq!(evidence_label("Ada", ""), "Ada");
    // ...but dedup still keys on the device id, which is the whole point.
    assert_eq!(identity_key("Ada", "dev:abc123"), "dev:abc123");
}

#[test]
fn evidence_label_trims_the_name() {
    assert_eq!(evidence_label("\t Ada \n", "dev:x"), "Ada");
    assert_eq!(evidence_label("Ada", "de"), "de");
}
