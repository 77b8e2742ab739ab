//! The student client's workflow: find the room, connect, identify, then
//! stream the screen until the connection ends, starting over until the
//! student stops. The network, the screen and the clock are the caller's;
//! this module decides what comes next and what the student is told.

use crate::identity::identity_payload;
use crate::protocol::{CLIENT_NO_SCREEN_PERMISSION, Packet, PacketType, REJECT_WRONG_CODE};
use crate::text::{append_str, lossy_text, text_of_bytes};
use vstd::prelude::*;
use vstd::utf8::encode_utf8;

verus! {

/// Pause before starting over after a failure, in milliseconds.
pub const RETRY_DELAY_MS: u64 = 1000;

/// Pause between two screen frames, in milliseconds.
pub const FRAME_INTERVAL_MS: u64 = 500;

/// JPEG quality of screen frames.
pub const FRAME_JPEG_QUALITY: u8 = 60;

/// Width screen frames are scaled down to.
pub const FRAME_TARGET_WIDTH: u32 = 1280;

/// How long the client waits for a refusal after identifying, in milliseconds.
pub const REJECTION_WAIT_MS: u64 = 400;

/// What the student app shows.
#[derive(Clone, Debug)]
pub struct ClientSnapshot {
    pub is_running: bool,
    pub is_connected: bool,
    pub status: String,
}

impl ClientSnapshot {
    /// The snapshot shown while the client is not started.
    pub fn idle() -> (r: Self)
        ensures
            !r.is_running,
            !r.is_connected,
            r.status@ == "Not connected"@,
    {
        ClientSnapshot { is_running: false, is_connected: false, status: "Not connected".to_owned() }
    }
}

/// What the caller does next.
pub enum ClientCommand {
    /// Find the server's address (or take the one the student typed), then
    /// call `on_server_found`.
    FindServer,
    /// Connect to the server found, then call `on_connected` or
    /// `on_connect_failed`.
    Connect,
    /// Send these bytes as a `Name` packet, then call `on_identity_sent` or
    /// `on_identity_failed`.
    SendIdentity(Vec<u8>),
    /// Wait briefly for a refusal, then call `on_rejection`.
    AwaitRejection,
    /// Send these bytes as a `Message` packet (a failure does not matter),
    /// then call `on_capture_notice_sent`.
    SendCaptureNotice(Vec<u8>),
    /// Stream screen frames until the connection ends, then call
    /// `on_stream_ended`.
    StreamFrames,
    /// Sleep this many milliseconds, then call `next_round`.
    Sleep(u64),
    /// Call `next_round` now.
    Restart,
    /// The worker is done.
    Finish,
}

/// The effects of one decision: status lines to show in order, new values
/// of the "connected" and "running" flags (if they change), and the next
/// command.
pub struct ClientStep {
    pub statuses: Vec<String>,
    pub connected: Option<bool>,
    pub running: Option<bool>,
    pub command: ClientCommand,
}

/// One client session's workflow.
pub struct ClientWorker {
    join_code: String,
    student_name: String,
    student_id: String,
    capture_ok: bool,
}

pub open spec fn wrong_code_status() -> Seq<char> {
    "Wrong class code — check it with your teacher, then press Stop and rejoin."@
}

pub open spec fn capture_blocked_status() -> Seq<char> {
    "Screen recording is blocked — allow it in System Settings > Privacy & Security > Screen Recording, then restart this app."@
}

fn step(
    statuses: Vec<String>,
    connected: Option<bool>,
    running: Option<bool>,
    command: ClientCommand,
) -> (r: ClientStep)
    ensures
        r.statuses == statuses,
        r.connected == connected,
        r.running == running,
        r.command == command,
{
    ClientStep { statuses, connected, running, command }
}

fn one_status(s: String) -> (r: Vec<String>)
    ensures
        r@ == seq![s],
{
    let mut v: Vec<String> = Vec::new();
    v.push(s);
    v
}

fn joined(prefix: &str, detail: &str) -> (r: String)
    ensures
        r@ == prefix@ + detail@,
{
    let mut s = prefix.to_owned();
    append_str(&mut s, detail);
    s
}

/// The statuses of a step, as plain text.
pub open spec fn statuses_of(s: ClientStep) -> Seq<Seq<char>> {
    Seq::new(s.statuses@.len(), |i: int| s.statuses@[i]@)
}

impl ClientWorker {
    pub closed spec fn code(&self) -> Seq<char> {
        self.join_code@
    }

    pub closed spec fn name(&self) -> Seq<char> {
        self.student_name@
    }

    pub closed spec fn student(&self) -> Seq<char> {
        self.student_id@
    }

    /// Whether the OS allowed screen capture on the current connection.
    pub closed spec fn capture_allowed(&self) -> bool {
        self.capture_ok
    }

    pub fn new(student_name: String, student_id: String, join_code: String) -> (r: Self)
        ensures
            r.code() == join_code@,
            r.name() == student_name@,
            r.student() == student_id@,
    {
        ClientWorker { join_code, student_name, student_id, capture_ok: true }
    }

    /// The top of the loop: look for the server again while running,
    /// otherwise stop.
    pub fn next_round(&self, running: bool) -> (r: ClientStep)
        ensures
            r.connected == Some(false),
            r.running is None,
            running ==> statuses_of(r) == seq!["Looking for the server..."@] && r.command
                is FindServer,
            !running ==> statuses_of(r) == seq!["Stopped"@] && r.command is Finish,
    {
        if running {
            let s = one_status("Looking for the server...".to_owned());
            proof {
                assert(Seq::new(s@.len(), |i: int| s@[i]@) =~= seq!["Looking for the server..."@]);
            }
            step(s, Some(false), None, ClientCommand::FindServer)
        } else {
            let s = one_status("Stopped".to_owned());
            proof {
                assert(Seq::new(s@.len(), |i: int| s@[i]@) =~= seq!["Stopped"@]);
            }
            step(s, Some(false), None, ClientCommand::Finish)
        }
    }

    /// After looking for the server: connect to it, or retry after a pause.
    pub fn on_server_found(&self, address: Option<&str>) -> (r: ClientStep)
        ensures
            r.connected is None,
            r.running is None,
            match address {
                Some(a) => statuses_of(r) == seq!["Connecting to "@ + a@ + "..."@] && r.command
                    is Connect,
                None => statuses_of(r).len() == 0 && r.command == ClientCommand::Sleep(
                    RETRY_DELAY_MS,
                ),
            },
    {
        match address {
            Some(a) => {
                let mut text = joined("Connecting to ", a);
                append_str(&mut text, "...");
                let s = one_status(text);
                proof {
                    assert(Seq::new(s@.len(), |i: int| s@[i]@) =~= seq![
                        "Connecting to "@ + a@ + "..."@,
                    ]);
                }
                step(s, None, None, ClientCommand::Connect)
            },
            None => {
                let s: Vec<String> = Vec::new();
                proof {
                    assert(Seq::new(s@.len(), |i: int| s@[i]@) =~= Seq::<Seq<char>>::empty());
                }
                step(s, None, None, ClientCommand::Sleep(RETRY_DELAY_MS))
            },
        }
    }

    /// The connection failed: report it and retry after a pause.
    pub fn on_connect_failed(&self, error: &str) -> (r: ClientStep)
        ensures
            r.connected == Some(false),
            r.running is None,
            statuses_of(r) == seq!["Connection failed: "@ + error@],
            r.command == ClientCommand::Sleep(RETRY_DELAY_MS),
    {
        let s = one_status(joined("Connection failed: ", error));
        proof {
            assert(Seq::new(s@.len(), |i: int| s@[i]@) =~= seq!["Connection failed: "@ + error@]);
        }
        step(s, Some(false), None, ClientCommand::Sleep(RETRY_DELAY_MS))
    }

    /// Connected: remember whether screen capture is allowed and send the
    /// student's identity.
    pub fn on_connected(&mut self, capture_ok: bool) -> (r: ClientStep)
        ensures
            final(self).capture_allowed() == capture_ok,
            final(self).code() == old(self).code(),
            final(self).name() == old(self).name(),
            final(self).student() == old(self).student(),
            r.connected is None,
            r.running is None,
            statuses_of(r) == seq!["Connected, sending identity..."@],
            match r.command {
                ClientCommand::SendIdentity(bytes) => bytes@ == encode_utf8(
                    crate::identity::identity_text(old(self).code(), old(self).name(), old(self).student()),
                ),
                _ => false,
            },
    {
        self.capture_ok = capture_ok;
        let bytes = identity_payload(
            self.join_code.as_str(),
            self.student_name.as_str(),
            self.student_id.as_str(),
        );
        let s = one_status("Connected, sending identity...".to_owned());
        proof {
            assert(Seq::new(s@.len(), |i: int| s@[i]@) =~= seq!["Connected, sending identity..."@]);
        }
        step(s, None, None, ClientCommand::SendIdentity(bytes))
    }

    /// The identity could not be sent: report it and retry after a pause.
    pub fn on_identity_failed(&self, error: &str) -> (r: ClientStep)
        ensures
            r.connected == Some(false),
            r.running is None,
            statuses_of(r) == seq!["Failed to send identity: "@ + error@],
            r.command == ClientCommand::Sleep(RETRY_DELAY_MS),
    {
        let s = one_status(joined("Failed to send identity: ", error));
        proof {
            assert(Seq::new(s@.len(), |i: int| s@[i]@) =~= seq![
                "Failed to send identity: "@ + error@,
            ]);
        }
        step(s, Some(false), None, ClientCommand::Sleep(RETRY_DELAY_MS))
    }

    /// The identity went out: wait for a possible refusal.
    pub fn on_identity_sent(&self) -> (r: ClientStep)
        ensures
            r.connected is None,
            r.running is None,
            statuses_of(r).len() == 0,
            r.command is AwaitRejection,
    {
        let s: Vec<String> = Vec::new();
        proof {
            assert(Seq::new(s@.len(), |i: int| s@[i]@) =~= Seq::<Seq<char>>::empty());
        }
        step(s, None, None, ClientCommand::AwaitRejection)
    }

    /// After waiting for a refusal. A wrong class code ends the worker with
    /// the explanation as the last status the student sees (they must fix the
    /// code and rejoin); anything else counts as accepted: a
    /// client whose screen capture is refused first tells the server so,
    /// then frames are streamed.
    pub fn on_rejection(&self, reason: Option<&str>) -> (r: ClientStep)
        ensures
            ({
                let wrong = reason is Some && reason->Some_0@ == REJECT_WRONG_CODE@;
                &&& wrong ==> statuses_of(r) == seq![wrong_code_status()] && r.running == Some(false)
                    && r.connected == Some(false) && r.command is Finish
                &&& !wrong ==> r.connected is None
                &&& !wrong && !self.capture_allowed() ==> r.running is None && statuses_of(r).len()
                    == 0 && match r.command {
                    ClientCommand::SendCaptureNotice(bytes) => bytes@ == encode_utf8(
                        CLIENT_NO_SCREEN_PERMISSION@,
                    ),
                    _ => false,
                }
                &&& !wrong && self.capture_allowed() ==> r.running is None && statuses_of(r)
                    == seq!["Connected, waiting for first screen frame..."@] && r.command
                    is StreamFrames
            }),
    {
        let wrong = match reason {
            Some(text) => {
                let expected = REJECT_WRONG_CODE.to_owned();
                let got = text.to_owned();
                got == expected
            },
            None => false,
        };
        if wrong {
            let s = one_status(
                "Wrong class code — check it with your teacher, then press Stop and rejoin.".to_owned(),
            );
            proof {
                assert(Seq::new(s@.len(), |i: int| s@[i]@) =~= seq![wrong_code_status()]);
            }
            return step(s, Some(false), Some(false), ClientCommand::Finish);
        }
        if !self.capture_ok {
            let notice = crate::text::utf8_bytes(CLIENT_NO_SCREEN_PERMISSION);
            let s: Vec<String> = Vec::new();
            proof {
                assert(Seq::new(s@.len(), |i: int| s@[i]@) =~= Seq::<Seq<char>>::empty());
            }
            return step(s, None, None, ClientCommand::SendCaptureNotice(notice));
        }
        let s = one_status("Connected, waiting for first screen frame...".to_owned());
        proof {
            assert(Seq::new(s@.len(), |i: int| s@[i]@) =~= seq![
                "Connected, waiting for first screen frame..."@,
            ]);
        }
        step(s, None, None, ClientCommand::StreamFrames)
    }

    /// The "capture refused" notice went out: tell the student how to allow
    /// screen recording, then stream frames.
    pub fn on_capture_notice_sent(&self) -> (r: ClientStep)
        ensures
            r.connected is None,
            r.running is None,
            statuses_of(r) == seq![
                capture_blocked_status(),
                "Connected, waiting for first screen frame..."@,
            ],
            r.command is StreamFrames,
    {
        let mut s: Vec<String> = Vec::new();
        s.push(
            "Screen recording is blocked — allow it in System Settings > Privacy & Security > Screen Recording, then restart this app.".to_owned(),
        );
        s.push("Connected, waiting for first screen frame...".to_owned());
        proof {
            assert(Seq::new(s@.len(), |i: int| s@[i]@) =~= seq![
                capture_blocked_status(),
                "Connected, waiting for first screen frame..."@,
            ]);
        }
        step(s, None, None, ClientCommand::StreamFrames)
    }

    /// Streaming ended, by a lost connection or by a crash of the frame
    /// worker. Unless the student stopped, say which, then start over.
    pub fn on_stream_ended(&self, crashed: bool, running: bool) -> (r: ClientStep)
        ensures
            r.connected == Some(false),
            r.running is None,
            r.command is Restart,
            !running ==> statuses_of(r).len() == 0,
            running && !crashed ==> statuses_of(r) == seq!["Disconnected from server"@],
            running && crashed ==> statuses_of(r) == seq!["Screen sharing worker crashed"@],
    {
        if !running {
            let s: Vec<String> = Vec::new();
            proof {
                assert(Seq::new(s@.len(), |i: int| s@[i]@) =~= Seq::<Seq<char>>::empty());
            }
            return step(s, Some(false), None, ClientCommand::Restart);
        }
        if crashed {
            let s = one_status("Screen sharing worker crashed".to_owned());
            proof {
                assert(Seq::new(s@.len(), |i: int| s@[i]@) =~= seq!["Screen sharing worker crashed"@]);
            }
            step(s, Some(false), None, ClientCommand::Restart)
        } else {
            let s = one_status("Disconnected from server".to_owned());
            proof {
                assert(Seq::new(s@.len(), |i: int| s@[i]@) =~= seq!["Disconnected from server"@]);
            }
            step(s, Some(false), None, ClientCommand::Restart)
        }
    }
}

/// The refusal a server sent, if the packet is a `Message`: its text.
pub fn rejection_reason(packet: &Packet) -> (r: Option<String>)
    ensures
        packet.packet_type == PacketType::Message ==> r is Some && r->Some_0@ == text_of_bytes(
            packet.payload@,
        ),
        packet.packet_type != PacketType::Message ==> r is None,
{
    match packet.packet_type {
        PacketType::Message => Some(lossy_text(packet.payload.as_slice())),
        _ => None,
    }
}

/// Counts the frames sent over one connection.
pub struct FrameStreamer {
    pub sent_frames: u64,
}

impl FrameStreamer {
    pub fn new() -> (r: Self)
        ensures
            r.sent_frames == 0,
    {
        FrameStreamer { sent_frames: 0 }
    }

    /// A frame went out. `was_connected` is the "connected" flag before it
    /// was set: the first frame of a connection turns sharing on.
    pub fn on_frame_sent(&mut self, was_connected: bool) -> (r: Option<String>)
        requires
            old(self).sent_frames < u64::MAX,
        ensures
            final(self).sent_frames == old(self).sent_frames + 1,
            !was_connected ==> r is Some && r->Some_0@ == "Screen sharing is active"@,
            was_connected ==> r is None,
    {
        self.sent_frames = self.sent_frames + 1;
        if !was_connected {
            Some("Screen sharing is active".to_owned())
        } else {
            None
        }
    }

    /// Sending a frame failed: the connection is over.
    pub fn on_send_failed(&self, error: &str) -> (r: String)
        ensures
            r@ == "Disconnected from server: "@ + error@,
    {
        joined("Disconnected from server: ", error)
    }

    /// Capturing the screen failed: report it and keep trying.
    pub fn on_capture_failed(&self, error: &str) -> (r: String)
        ensures
            r@ == "Screen capture failed: "@ + error@,
    {
        joined("Screen capture failed: ", error)
    }
}

} // verus!
