use exam_monitor_core::identity::identity_payload;
use exam_monitor_core::protocol::{Packet, PacketType, CLIENT_NO_SCREEN_PERMISSION};
use exam_monitor_core::roster::{
    dismiss_student, drop_tombstones, evidence_frames, new_student, update_student,
    upsert_student, StudentSnapshot, StudentUpdate,
};
use exam_monitor_core::server::{
    clear_step, interval_due, ClearStep, ConnectionAction, ConnectionIds, LogKind, PeerIp,
    RemoveOutcome, RoomDiagnostics, ServerSnapshot, StudentConnection, MAX_CONNECTIONS,
};

fn name_packet(code: &str, name: &str, id: &str) -> Packet {
    Packet { packet_type: PacketType::Name, payload: identity_payload(code, name, id) }
}

fn picture(bytes: &[u8]) -> Packet {
    Packet { packet_type: PacketType::Picture, payload: bytes.to_vec() }
}

#[test]
fn registration_creates_a_live_tile_and_logs_a_connect() {
    let mut students: Vec<StudentSnapshot> = Vec::new();
    let mut diag = RoomDiagnostics::new();
    let mut conn = StudentConnection::new(1, "TEST");
    let step = conn.on_packet(&mut students, &mut diag, &name_packet("TEST", "Ada", "STU-1"), 10);
    assert_eq!(step.action, ConnectionAction::Continue);
    let log = step.log.unwrap();
    assert_eq!(log.kind, LogKind::Connect);
    assert_eq!(log.name, "Ada");
    assert_eq!(students.len(), 1);
    assert_eq!(students[0].name, "Ada");
    assert_eq!(students[0].student_id, "STU-1");
    assert!(students[0].connected);
    assert_eq!(students[0].connected_at_ms, 10);
    // A second identity is not logged again.
    let again = conn.on_packet(&mut students, &mut diag, &name_packet("TEST", "Ada L", "STU-1"), 20);
    assert!(again.log.is_none());
    assert_eq!(students[0].name, "Ada L");
    assert_eq!(students[0].last_update_ms, 20);
}

#[test]
fn wrong_code_is_refused_counted_and_never_registered() {
    let mut students: Vec<StudentSnapshot> = Vec::new();
    let mut diag = RoomDiagnostics::new();
    let mut conn = StudentConnection::new(1, "7GK4");
    let step = conn.on_packet(&mut students, &mut diag, &name_packet("XXXX", "Mallory", ""), 5);
    assert_eq!(step.action, ConnectionAction::RejectWrongCode);
    assert!(students.is_empty());
    assert_eq!(diag.wrong_code_attempts(), 1);
    assert!(conn.on_close(&mut students, 6).is_none());
    assert!(students.is_empty());
}

#[test]
fn empty_name_keeps_the_unknown_placeholder() {
    let mut students: Vec<StudentSnapshot> = Vec::new();
    let mut diag = RoomDiagnostics::new();
    let mut conn = StudentConnection::new(3, "");
    conn.on_packet(&mut students, &mut diag, &name_packet("", "", ""), 1);
    assert_eq!(students.len(), 1);
    assert_eq!(students[0].name, "Unknown");
}

#[test]
fn disconnect_leaves_a_tombstone_that_can_be_dismissed() {
    let mut students: Vec<StudentSnapshot> = Vec::new();
    let mut diag = RoomDiagnostics::new();
    let mut conn = StudentConnection::new(4, "");
    conn.on_packet(&mut students, &mut diag, &name_packet("", "Ada", "STU-1"), 1);
    let log = conn.on_close(&mut students, 99).unwrap();
    assert_eq!(log.kind, LogKind::Disconnect);
    assert_eq!(log.student_id, "STU-1");
    assert_eq!(students.len(), 1);
    assert!(!students[0].connected);
    assert_eq!(students[0].disconnected_at_ms, Some(99));
    dismiss_student(&mut students, 4);
    assert!(students.is_empty());
}

#[test]
fn reconnect_collapses_to_one_live_tile() {
    let mut students: Vec<StudentSnapshot> = Vec::new();
    let mut diag = RoomDiagnostics::new();
    let mut first = StudentConnection::new(1, "");
    first.on_packet(&mut students, &mut diag, &name_packet("", "Ada", ""), 1);
    first.on_close(&mut students, 2);
    assert_eq!(students.len(), 1);
    let mut second = StudentConnection::new(2, "");
    second.on_packet(&mut students, &mut diag, &name_packet("", " Ada ", ""), 3);
    assert_eq!(students.len(), 1);
    assert!(students[0].connected);
    assert_eq!(students[0].id, 2);
}

#[test]
fn frames_before_identity_depend_on_the_room_code() {
    let mut students: Vec<StudentSnapshot> = Vec::new();
    let mut diag = RoomDiagnostics::new();
    let mut guarded = StudentConnection::new(1, "7GK4");
    let step = guarded.on_packet(&mut students, &mut diag, &picture(b"jpeg"), 1);
    assert_eq!(step.action, ConnectionAction::Close);
    assert!(students.is_empty());

    let mut open = StudentConnection::new(2, "");
    let step = open.on_packet(&mut students, &mut diag, &picture(b"abc"), 7);
    assert_eq!(step.action, ConnectionAction::Continue);
    assert_eq!(students.len(), 1);
    assert_eq!(students[0].name, "Unknown");
    assert_eq!(students[0].image_data_url.as_deref(), Some("data:image/jpeg;base64,YWJj"));
    assert_eq!(students[0].last_update_ms, 7);
}

#[test]
fn capture_notice_marks_the_tile() {
    let mut students: Vec<StudentSnapshot> = Vec::new();
    let mut diag = RoomDiagnostics::new();
    let mut conn = StudentConnection::new(1, "");
    conn.on_packet(&mut students, &mut diag, &name_packet("", "Ada", ""), 1);
    let other = Packet { packet_type: PacketType::Message, payload: b"hello".to_vec() };
    conn.on_packet(&mut students, &mut diag, &other, 2);
    assert!(!students[0].capture_blocked);
    let notice = Packet {
        packet_type: PacketType::Message,
        payload: CLIENT_NO_SCREEN_PERMISSION.as_bytes().to_vec(),
    };
    conn.on_packet(&mut students, &mut diag, &notice, 3);
    assert!(students[0].capture_blocked);
}

#[test]
fn roster_updates_only_touch_their_tile() {
    let mut students = vec![new_student(1, 0), new_student(2, 0)];
    update_student(&mut students, 2, StudentUpdate::CaptureBlocked);
    assert!(!students[0].capture_blocked);
    assert!(students[1].capture_blocked);
    update_student(&mut students, 9, StudentUpdate::Touch { now: 5 });
    assert_eq!(students[0].last_update_ms, 0);
    upsert_student(&mut students, 3, 8, StudentUpdate::Touch { now: 8 });
    assert_eq!(students.len(), 3);
    assert_eq!(students[2].connected_at_ms, 8);
}

#[test]
fn tombstones_of_other_students_survive_a_reconnect() {
    let mut students = vec![new_student(1, 0), new_student(2, 0), new_student(3, 0)];
    for id in [1, 2] {
        update_student(
            &mut students,
            id,
            StudentUpdate::Identity { name: String::from("Ada"), student_id: String::new(), now: 1 },
        );
        update_student(&mut students, id, StudentUpdate::Disconnected { now: 2 });
    }
    update_student(
        &mut students,
        3,
        StudentUpdate::Identity { name: String::from("Bob"), student_id: String::new(), now: 1 },
    );
    update_student(&mut students, 3, StudentUpdate::Disconnected { now: 2 });
    drop_tombstones(&mut students, "Ada", 7);
    assert_eq!(students.len(), 1);
    assert_eq!(students[0].name, "Bob");
}

#[test]
fn evidence_covers_connected_students_with_frames() {
    let mut students = vec![new_student(1, 0), new_student(2, 0), new_student(5, 0)];
    update_student(
        &mut students,
        1,
        StudentUpdate::Frame { data_url: String::from("data:image/jpeg;base64,AA=="), now: 1 },
    );
    update_student(
        &mut students,
        5,
        StudentUpdate::Identity { name: String::from("  "), student_id: String::from("dev:9"), now: 1 },
    );
    update_student(
        &mut students,
        5,
        StudentUpdate::Frame { data_url: String::from("data:image/jpeg;base64,AQ=="), now: 1 },
    );
    let frames = evidence_frames(&students);
    assert_eq!(frames.len(), 2);
    assert_eq!(frames[0].label, "Unknown");
    assert_eq!(frames[1].label, "id5");
    assert_eq!(frames[1].data_url, "data:image/jpeg;base64,AQ==");
}

#[test]
fn probes_without_a_connection_count_as_unreachable() {
    let mut diag = RoomDiagnostics::new();
    diag.record_probe(PeerIp::V4(0x0a00_0001), 1_000);
    diag.record_probe(PeerIp::V4(0x0a00_0002), 1_000);
    diag.record_probe(PeerIp::V4(0x0a00_0001), 30_000);
    diag.record_connected_peer(PeerIp::V4(0x0a00_0002));
    diag.record_connected_peer(PeerIp::V4(0x0a00_0002));
    assert_eq!(diag.unreachable(40_000), 1);
    assert_eq!(diag.unreachable(90_000), 0);
    diag.record_wrong_code();
    assert_eq!(diag.wrong_code_attempts(), 1);
}

#[test]
fn connections_beyond_capacity_are_turned_away() {
    let mut ids = ConnectionIds::new();
    for expected in 1..=MAX_CONNECTIONS as u64 {
        assert_eq!(ids.accept(), Some(expected));
    }
    assert_eq!(ids.open_count(), MAX_CONNECTIONS);
    // A full room turns the next connection away without using up an id.
    assert_eq!(ids.accept(), None);
    assert_eq!(ids.next_id(), MAX_CONNECTIONS as u64 + 1);
    // Once one closes, there is room again, under a fresh id.
    ids.release(7);
    assert_eq!(ids.open_count(), MAX_CONNECTIONS - 1);
    ids.release(7);
    assert_eq!(ids.open_count(), MAX_CONNECTIONS - 1);
    assert_eq!(ids.accept(), Some(MAX_CONNECTIONS as u64 + 1));
    assert_eq!(ids.accept(), None);
}

#[test]
fn periodic_work_is_due_after_its_interval() {
    assert!(interval_due(None, 0, 2_000));
    assert!(!interval_due(Some(1_000), 2_999, 2_000));
    assert!(interval_due(Some(1_000), 3_000, 2_000));
}

#[test]
fn evidence_clearing_retries_then_gives_up() {
    assert_eq!(clear_step(0, RemoveOutcome::Removed), ClearStep::Done);
    assert_eq!(clear_step(3, RemoveOutcome::NotFound), ClearStep::Done);
    assert_eq!(clear_step(0, RemoveOutcome::Failed), ClearStep::RetryAfter(100));
    assert_eq!(clear_step(9, RemoveOutcome::Failed), ClearStep::GiveUp);
}

#[test]
fn idle_snapshot_is_empty() {
    let s = ServerSnapshot::idle();
    assert!(!s.is_running);
    assert!(s.students.is_empty());
    assert_eq!(s.port, 0);
}
