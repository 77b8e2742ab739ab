use exam_monitor_core::client::{
    rejection_reason, ClientCommand, ClientSnapshot, ClientWorker, FrameStreamer, RETRY_DELAY_MS,
};
use exam_monitor_core::identity::identity_payload;
use exam_monitor_core::protocol::{Packet, PacketType, CLIENT_NO_SCREEN_PERMISSION};

fn worker() -> ClientWorker {
    ClientWorker::new(String::from("Ada"), String::from("STU-1"), String::from("7GK4"))
}

#[test]
fn a_round_looks_for_the_server_then_connects_and_identifies() {
    let mut w = worker();
    let start = w.next_round(true);
    assert!(matches!(start.command, ClientCommand::FindServer));
    assert_eq!(start.statuses, vec![String::from("Looking for the server...")]);
    assert_eq!(start.connected, Some(false));

    let found = w.on_server_found(Some("10.0.0.5:31076"));
    assert!(matches!(found.command, ClientCommand::Connect));
    assert_eq!(found.statuses, vec![String::from("Connecting to 10.0.0.5:31076...")]);

    let connected = w.on_connected(true);
    match connected.command {
        ClientCommand::SendIdentity(bytes) => {
            assert_eq!(bytes, identity_payload("7GK4", "Ada", "STU-1"))
        }
        _ => panic!("expected the identity to be sent"),
    }
    assert!(matches!(w.on_identity_sent().command, ClientCommand::AwaitRejection));
    let accepted = w.on_rejection(None);
    assert!(matches!(accepted.command, ClientCommand::StreamFrames));
    assert_eq!(
        accepted.statuses,
        vec![String::from("Connected, waiting for first screen frame...")]
    );
}

#[test]
fn missing_server_or_failed_connection_retries_after_a_pause() {
    let w = worker();
    assert!(matches!(w.on_server_found(None).command, ClientCommand::Sleep(RETRY_DELAY_MS)));
    let failed = w.on_connect_failed("refused");
    assert_eq!(failed.statuses, vec![String::from("Connection failed: refused")]);
    assert!(matches!(failed.command, ClientCommand::Sleep(1000)));
    let lost = w.on_identity_failed("broken pipe");
    assert_eq!(lost.statuses, vec![String::from("Failed to send identity: broken pipe")]);
}

#[test]
fn wrong_code_stops_the_client() {
    let w = worker();
    let refused = w.on_rejection(Some("WRONG_CODE"));
    assert_eq!(refused.running, Some(false));
    assert_eq!(refused.connected, Some(false));
    // The worker ends here, so the explanation stays on screen.
    assert!(matches!(refused.command, ClientCommand::Finish));
    assert_eq!(
        refused.statuses,
        vec![String::from(
            "Wrong class code — check it with your teacher, then press Stop and rejoin."
        )]
    );
    // Any other message counts as accepted.
    assert!(matches!(w.on_rejection(Some("HELLO")).command, ClientCommand::StreamFrames));
}

#[test]
fn blocked_capture_is_reported_before_streaming() {
    let mut w = worker();
    w.on_connected(false);
    match w.on_rejection(None).command {
        ClientCommand::SendCaptureNotice(bytes) => {
            assert_eq!(bytes, CLIENT_NO_SCREEN_PERMISSION.as_bytes())
        }
        _ => panic!("expected the capture notice"),
    }
    let after = w.on_capture_notice_sent();
    assert!(matches!(after.command, ClientCommand::StreamFrames));
    assert_eq!(after.statuses.len(), 2);
    assert!(after.statuses[0].starts_with("Screen recording is blocked"));
}

#[test]
fn stream_end_is_explained_unless_stopped() {
    let w = worker();
    assert_eq!(
        w.on_stream_ended(false, true).statuses,
        vec![String::from("Disconnected from server")]
    );
    assert_eq!(
        w.on_stream_ended(true, true).statuses,
        vec![String::from("Screen sharing worker crashed")]
    );
    assert!(w.on_stream_ended(true, false).statuses.is_empty());
}

#[test]
fn first_frame_turns_sharing_on() {
    let mut s = FrameStreamer::new();
    assert_eq!(s.on_frame_sent(false).as_deref(), Some("Screen sharing is active"));
    assert_eq!(s.on_frame_sent(true), None);
    assert_eq!(s.sent_frames, 2);
    assert_eq!(s.on_send_failed("reset"), "Disconnected from server: reset");
    assert_eq!(s.on_capture_failed("denied"), "Screen capture failed: denied");
}

#[test]
fn only_messages_carry_a_rejection() {
    let msg = Packet { packet_type: PacketType::Message, payload: b"WRONG_CODE".to_vec() };
    assert_eq!(rejection_reason(&msg).as_deref(), Some("WRONG_CODE"));
    let pic = Packet { packet_type: PacketType::Picture, payload: b"WRONG_CODE".to_vec() };
    assert_eq!(rejection_reason(&pic), None);
}

#[test]
fn idle_client_snapshot() {
    let s = ClientSnapshot::idle();
    assert!(!s.is_running && !s.is_connected);
    assert_eq!(s.status, "Not connected");
}
