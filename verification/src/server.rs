//! The decisions a room server takes: which connections it accepts, what each
//! packet from a student does to the roster, what it tells the teacher about
//! students who cannot get in, and when its periodic work is due. Sockets,
//! threads and clocks are the caller's.

use crate::frames::{image_data_url, jpeg_data_url};
use crate::identity::{identity_fields, identity_key, parse_identity};
use crate::protocol::{CLIENT_NO_SCREEN_PERMISSION, Packet, PacketType};
use crate::roster::{
    StudentSnapshot, StudentUpdate, TileChange, dismiss_student, dismissed, drop_tombstones,
    lemma_retained_unique, lemma_updated_unique, lemma_upserted_unique, roster_view,
    tombstones_dropped, unique_ids, update_student, updated, upsert_student, upserted,
    survives_reconnect,
};
use crate::text::{text_of_bytes, trim_spec};
use vstd::prelude::*;
use vstd::utf8::encode_utf8;

verus! {

/// A connection that sends nothing for this long is dropped.
pub const IDLE_TIMEOUT_MS: u64 = 30000;

/// Most student connections held at once.
pub const MAX_CONNECTIONS: usize = 64;

/// How often each connected student's latest frame is saved as evidence.
pub const EVIDENCE_INTERVAL_MS: u64 = 60000;

/// How long a device counts as "still trying" after its last probe.
pub const PROBE_MEMORY_MS: u64 = 60000;

/// How often the server announces itself on the network.
pub const BEACON_INTERVAL_MS: u64 = 2000;

/// Whether periodic work last done at `last` (never, if `None`) is due
/// again at `now`, with times in milliseconds of a monotonic clock.
pub open spec fn is_due(last: Option<u64>, now: u64, interval: u64) -> bool {
    match last {
        None => true,
        Some(at) => now >= at && now - at >= interval,
    }
}

pub fn interval_due(last: Option<u64>, now: u64, interval: u64) -> (r: bool)
    ensures
        r == is_due(last, now, interval),
{
    match last {
        None => true,
        Some(at) => now >= at && now - at >= interval,
    }
}

/// The address of a device on the network.
#[derive(Clone, Copy, Debug, PartialEq, Eq, Structural)]
pub enum PeerIp {
    V4(u32),
    V6(u128),
}

/// Why a student might be missing from the grid.
pub struct RoomDiagnostics {
    /// Connections dropped for presenting the wrong class code.
    wrong_code: u64,
    /// Devices that asked where the room is, and when they last asked.
    probed: Vec<(PeerIp, u64)>,
    /// Devices that got as far as a TCP connection.
    connected_peers: Vec<PeerIp>,
}

/// Whether a device that asked for the room at `at` is still trying at `now`.
pub open spec fn recently_probed(at: u64, now: u64) -> bool {
    now < at || now - at < PROBE_MEMORY_MS
}

/// Devices that found the room over UDP recently but never completed a TCP
/// connection: the signature of a firewall or a blocked port.
pub open spec fn unreachable_count(probed: Seq<(PeerIp, u64)>, connected: Seq<PeerIp>, now: u64) -> nat
    decreases probed.len(),
{
    if probed.len() == 0 {
        0
    } else {
        let (ip, at) = probed.last();
        unreachable_count(probed.drop_last(), connected, now) + if recently_probed(at, now)
            && !connected.contains(ip) {
            1nat
        } else {
            0nat
        }
    }
}

impl RoomDiagnostics {
    /// Connections refused for a wrong class code.
    pub closed spec fn wrong_codes(&self) -> u64 {
        self.wrong_code
    }

    pub fn wrong_code_attempts(&self) -> (r: u64)
        ensures
            r == self.wrong_codes(),
    {
        self.wrong_code
    }

    /// Devices that probed, with the time of their last probe.
    pub closed spec fn probes(&self) -> Seq<(PeerIp, u64)> {
        self.probed@
    }

    /// Devices that reached TCP.
    pub closed spec fn peers(&self) -> Seq<PeerIp> {
        self.connected_peers@
    }

    /// Each device appears once in each list.
    #[verifier::type_invariant]
    spec fn wf(&self) -> bool {
        &&& forall|i: int, j: int|
            0 <= i < j < self.probed@.len() ==> self.probed@[i].0 != self.probed@[j].0
        &&& self.connected_peers@.no_duplicates()
    }

    pub fn new() -> (r: Self)
        ensures
            r.wrong_codes() == 0,
            r.probes() == Seq::<(PeerIp, u64)>::empty(),
            r.peers() == Seq::<PeerIp>::empty(),
    {
        RoomDiagnostics { wrong_code: 0, probed: Vec::new(), connected_peers: Vec::new() }
    }

    /// Counts one more connection refused for a wrong code (saturating).
    pub fn record_wrong_code(&mut self)
        ensures
            final(self).wrong_codes() == if old(self).wrong_codes() == u64::MAX {
                u64::MAX
            } else {
                (old(self).wrong_codes() + 1) as u64
            },
            final(self).probes() == old(self).probes(),
            final(self).peers() == old(self).peers(),
    {
        proof {
            use_type_invariant(&*self);
        }
        self.wrong_code = self.wrong_code.saturating_add(1);
    }

    /// Remembers that `ip` asked where the room is at `now`.
    pub fn record_probe(&mut self, ip: PeerIp, now: u64)
        ensures
            final(self).wrong_codes() == old(self).wrong_codes(),
            final(self).peers() == old(self).peers(),
            ({
                let p = old(self).probes();
                if exists|k: int| 0 <= k < p.len() && p[k].0 == ip {
                    exists|k: int|
                        0 <= k < p.len() && p[k].0 == ip && final(self).probes() == p.update(
                            k,
                            (ip, now),
                        )
                } else {
                    final(self).probes() == p.push((ip, now))
                }
            }),
    {
        proof {
            use_type_invariant(&*self);
        }
        let mut probed: Vec<(PeerIp, u64)> = Vec::new();
        std::mem::swap(&mut probed, &mut self.probed);
        let ghost p = probed@;
        let mut i: usize = 0;
        while i < probed.len()
            invariant
                0 <= i <= probed@.len(),
                probed@ == p,
                forall|j: int| 0 <= j < i ==> p[j].0 != ip,
            ensures
                0 <= i <= probed@.len(),
                probed@ == p,
                forall|j: int| 0 <= j < i ==> p[j].0 != ip,
                i < probed@.len() ==> p[i as int].0 == ip,
            decreases probed@.len() - i,
        {
            if probed[i].0 == ip {
                break;
            }
            i = i + 1;
        }
        if i < probed.len() {
            probed.set(i, (ip, now));
            assert(probed@ == p.update(i as int, (ip, now)));
            assert forall|a: int, b: int|
                0 <= a < b < probed@.len() implies probed@[a].0 != probed@[b].0 by {
                assert(probed@[a].0 == p[a].0 && probed@[b].0 == p[b].0);
            }
        } else {
            probed.push((ip, now));
            assert forall|a: int, b: int|
                0 <= a < b < probed@.len() implies probed@[a].0 != probed@[b].0 by {
                if b == p.len() {
                    assert(probed@[a] == p[a]);
                } else {
                    assert(probed@[a] == p[a] && probed@[b] == p[b]);
                }
            }
        }
        self.probed = probed;
    }

    /// Remembers that `ip` reached TCP.
    pub fn record_connected_peer(&mut self, ip: PeerIp)
        ensures
            final(self).wrong_codes() == old(self).wrong_codes(),
            final(self).probes() == old(self).probes(),
            old(self).peers().contains(ip) ==> final(self).peers() == old(self).peers(),
            !old(self).peers().contains(ip) ==> final(self).peers() == old(self).peers().push(ip),
    {
        proof {
            use_type_invariant(&*self);
        }
        if self.is_connected_peer(ip) {
            return;
        }
        let mut peers: Vec<PeerIp> = Vec::new();
        std::mem::swap(&mut peers, &mut self.connected_peers);
        let ghost p = peers@;
        peers.push(ip);
        assert(peers@.no_duplicates()) by {
            let q = peers@;
            assert forall|a: int, b: int|
                0 <= a < q.len() && 0 <= b < q.len() && a != b implies q[a] != q[b] by {
                if a == p.len() {
                    assert(q[b] == p[b]);
                } else if b == p.len() {
                    assert(q[a] == p[a]);
                } else {
                    assert(q[a] == p[a] && q[b] == p[b]);
                }
            }
        }
        self.connected_peers = peers;
    }

    fn is_connected_peer(&self, ip: PeerIp) -> (r: bool)
        ensures
            r == self.peers().contains(ip),
    {
        let mut i: usize = 0;
        while i < self.connected_peers.len()
            invariant
                0 <= i <= self.connected_peers@.len(),
                forall|j: int| 0 <= j < i ==> self.connected_peers@[j] != ip,
            decreases self.connected_peers@.len() - i,
        {
            if self.connected_peers[i] == ip {
                assert(self.connected_peers@[i as int] == ip);
                return true;
            }
            i = i + 1;
        }
        false
    }

    /// How many devices found the room but could not connect.
    pub fn unreachable(&self, now: u64) -> (r: usize)
        ensures
            r == unreachable_count(self.probes(), self.peers(), now),
    {
        let mut count: usize = 0;
        let mut i: usize = 0;
        while i < self.probed.len()
            invariant
                0 <= i <= self.probed@.len(),
                count == unreachable_count(self.probed@.subrange(0, i as int), self.connected_peers@, now),
                count <= i,
            decreases self.probed@.len() - i,
        {
            let ghost prefix = self.probed@.subrange(0, i + 1);
            assert(prefix.drop_last() =~= self.probed@.subrange(0, i as int));
            let (ip, at) = self.probed[i];
            let recent = now < at || now - at < PROBE_MEMORY_MS;
            if recent && !self.is_connected_peer(ip) {
                count = count + 1;
            }
            i = i + 1;
        }
        assert(self.probed@.subrange(0, self.probed@.len() as int) =~= self.probed@);
        count
    }
}

/// Hands out connection ids and keeps the ids of the open connections,
/// turning new ones away while `MAX_CONNECTIONS` are open.
pub struct ConnectionIds {
    next_id: u64,
    open: Vec<u64>,
}

/// The open ids with `id` taken out, in order.
pub open spec fn without_id(open: Seq<u64>, id: u64) -> Seq<u64>
    decreases open.len(),
{
    if open.len() == 0 {
        open
    } else if open.last() == id {
        without_id(open.drop_last(), id)
    } else {
        without_id(open.drop_last(), id).push(open.last())
    }
}

/// Taking an id out keeps only ids that were there, never `id`, each once
/// if they were once.
proof fn lemma_without_id(open: Seq<u64>, id: u64)
    ensures
        without_id(open, id).len() <= open.len(),
        forall|j: int|
            0 <= j < without_id(open, id).len() ==> open.contains(#[trigger] without_id(open, id)[j])
                && without_id(open, id)[j] != id,
        open.no_duplicates() ==> without_id(open, id).no_duplicates(),
    decreases open.len(),
{
    if open.len() > 0 {
        let init = open.drop_last();
        lemma_without_id(init, id);
        let rest = without_id(init, id);
        assert forall|j: int| 0 <= j < without_id(open, id).len() implies open.contains(
            #[trigger] without_id(open, id)[j],
        ) && without_id(open, id)[j] != id by {
            if j < rest.len() {
                let y = rest[j];
                let k = choose|k: int| 0 <= k < init.len() && init[k] == y;
                assert(open[k] == y);
            } else {
                assert(open[open.len() - 1] == open.last());
            }
        }
        if open.no_duplicates() && open.last() != id {
            let w = without_id(open, id);
            assert forall|a: int, b: int|
                0 <= a < w.len() && 0 <= b < w.len() && a != b implies w[a] != w[b] by {
                if a == rest.len() {
                    let k = choose|k: int| 0 <= k < init.len() && init[k] == rest[b];
                    assert(open[k] == rest[b]);
                    assert(open[open.len() - 1] == w[a]);
                } else if b == rest.len() {
                    let k = choose|k: int| 0 <= k < init.len() && init[k] == rest[a];
                    assert(open[k] == rest[a]);
                    assert(open[open.len() - 1] == w[b]);
                } else {
                    assert(w[a] == rest[a] && w[b] == rest[b]);
                }
            }
        }
    }
}

impl ConnectionIds {
    /// Never more than `MAX_CONNECTIONS` connections are open, none twice,
    /// and every open id was handed out before `next_id`.
    #[verifier::type_invariant]
    spec fn within_capacity(&self) -> bool {
        &&& self.next_id >= 1
        &&& self.open@.len() <= MAX_CONNECTIONS
        &&& self.open@.no_duplicates()
        &&& forall|i: int| 0 <= i < self.open@.len() ==> 1 <= #[trigger] self.open@[i] < self.next_id
    }

    /// The id the next accepted connection gets.
    pub closed spec fn next(&self) -> u64 {
        self.next_id
    }

    /// The ids of the open connections, oldest first.
    pub closed spec fn open_ids(&self) -> Seq<u64> {
        self.open@
    }

    /// What always holds: at most `MAX_CONNECTIONS` open, each once.
    pub open spec fn capacity_kept(&self) -> bool {
        &&& self.open_ids().len() <= MAX_CONNECTIONS
        &&& self.open_ids().no_duplicates()
    }

    pub fn new() -> (r: Self)
        ensures
            r.next() == 1,
            r.open_ids() == Seq::<u64>::empty(),
            r.capacity_kept(),
    {
        ConnectionIds { next_id: 1, open: Vec::new() }
    }

    pub fn next_id(&self) -> (r: u64)
        ensures
            r == self.next(),
    {
        self.next_id
    }

    /// How many connections are open.
    pub fn open_count(&self) -> (r: usize)
        ensures
            r == self.open_ids().len(),
            r <= MAX_CONNECTIONS,
            self.capacity_kept(),
    {
        proof {
            use_type_invariant(self);
        }
        self.open.len()
    }

    /// Accepts a new connection when fewer than `MAX_CONNECTIONS` are open,
    /// giving it the next id and counting it as open.
    pub fn accept(&mut self) -> (r: Option<u64>)
        requires
            old(self).next() < u64::MAX,
        ensures
            final(self).capacity_kept(),
            old(self).open_ids().len() >= MAX_CONNECTIONS ==> r is None && final(self).next()
                == old(self).next() && final(self).open_ids() == old(self).open_ids(),
            old(self).open_ids().len() < MAX_CONNECTIONS ==> r == Some(old(self).next())
                && final(self).next() == old(self).next() + 1 && final(self).open_ids() == old(
                self,
            ).open_ids().push(old(self).next()),
    {
        proof {
            use_type_invariant(&*self);
        }
        if self.open.len() >= MAX_CONNECTIONS {
            return None;
        }
        let id = self.next_id;
        let mut open: Vec<u64> = Vec::new();
        std::mem::swap(&mut open, &mut self.open);
        let ghost before = open@;
        open.push(id);
        assert(open@.no_duplicates()) by {
            assert forall|a: int, b: int|
                0 <= a < open@.len() && 0 <= b < open@.len() && a != b implies open@[a]
                != open@[b] by {
                if a == before.len() {
                    assert(open@[b] == before[b]);
                } else if b == before.len() {
                    assert(open@[a] == before[a]);
                } else {
                    assert(open@[a] == before[a] && open@[b] == before[b]);
                }
            }
        }
        self.next_id = self.next_id + 1;
        assert forall|i: int| 0 <= i < open@.len() implies 1 <= #[trigger] open@[i] < self.next_id by {
            if i < before.len() {
                assert(open@[i] == before[i]);
            }
        }
        self.open = open;
        Some(id)
    }

    /// The connection `id` has closed: it no longer counts as open.
    pub fn release(&mut self, id: u64)
        ensures
            final(self).capacity_kept(),
            final(self).next() == old(self).next(),
            final(self).open_ids() == without_id(old(self).open_ids(), id),
    {
        proof {
            use_type_invariant(&*self);
        }
        let mut open: Vec<u64> = Vec::new();
        std::mem::swap(&mut open, &mut self.open);
        let ghost before = open@;
        let mut kept: Vec<u64> = Vec::new();
        let mut i: usize = 0;
        while i < open.len()
            invariant
                0 <= i <= open@.len(),
                open@ == before,
                kept@ == without_id(before.subrange(0, i as int), id),
            decreases open@.len() - i,
        {
            let x = open[i];
            let ghost prefix = before.subrange(0, i + 1);
            assert(prefix.drop_last() =~= before.subrange(0, i as int));
            assert(prefix.last() == x);
            if x != id {
                kept.push(x);
            }
            i = i + 1;
        }
        assert(before.subrange(0, before.len() as int) =~= before);
        proof {
            lemma_without_id(before, id);
        }
        assert forall|j: int| 0 <= j < kept@.len() implies 1 <= #[trigger] kept@[j] < self.next_id by {
            let y = kept@[j];
            assert(before.contains(y));
            let k = choose|k: int| 0 <= k < before.len() && before[k] == y;
        }
        self.open = kept;
    }
}

/// What the caller does with a connection after a packet.
#[derive(Clone, Copy, Debug, PartialEq, Eq, Structural)]
pub enum ConnectionAction {
    /// Keep reading.
    Continue,
    /// Send a `Message` packet holding `REJECT_WRONG_CODE`, then close.
    RejectWrongCode,
    /// Close without a word.
    Close,
}

#[derive(Clone, Copy, Debug, PartialEq, Eq, Structural)]
pub enum LogKind {
    Connect,
    Disconnect,
}

/// A row for the session's audit trail.
pub struct LogEvent {
    pub kind: LogKind,
    pub name: String,
    pub student_id: String,
}

/// The outcome of a packet.
pub struct ConnectionStep {
    pub action: ConnectionAction,
    pub log: Option<LogEvent>,
}

/// One student connection as the server sees it.
pub struct StudentConnection {
    id: u64,
    join_code: String,
    registered: bool,
    name: String,
    student_id: String,
}

/// Whether a payload is the client's "screen capture refused" notice.
pub open spec fn is_capture_blocked_notice(payload: Seq<u8>) -> bool {
    payload == encode_utf8(CLIENT_NO_SCREEN_PERMISSION@)
}

fn bytes_equal(a: &[u8], b: &[u8]) -> (r: bool)
    ensures
        r == (a@ == b@),
{
    if a.len() != b.len() {
        return false;
    }
    let mut i: usize = 0;
    while i < a.len()
        invariant
            0 <= i <= a@.len(),
            a@.len() == b@.len(),
            forall|j: int| 0 <= j < i ==> a@[j] == b@[j],
        decreases a@.len() - i,
    {
        if a[i] != b[i] {
            return false;
        }
        i = i + 1;
    }
    assert(a@ =~= b@);
    true
}

impl StudentConnection {
    /// The connection's id.
    pub closed spec fn conn_id(&self) -> u64 {
        self.id
    }

    pub fn id(&self) -> (r: u64)
        ensures
            r == self.conn_id(),
    {
        self.id
    }

    /// The join code the room requires (empty: none).
    pub closed spec fn room_code(&self) -> Seq<char> {
        self.join_code@
    }

    /// Whether the connection has registered (by identity, or by a frame in
    /// a room without a code).
    pub closed spec fn is_registered(&self) -> bool {
        self.registered
    }

    /// The (name, student ID) last received, or ("Unknown", "") before that.
    pub closed spec fn identity(&self) -> (Seq<char>, Seq<char>) {
        (self.name@, self.student_id@)
    }

    pub fn new(id: u64, join_code: &str) -> (r: Self)
        ensures
            r.conn_id() == id,
            r.room_code() == join_code@,
            !r.is_registered(),
            r.identity() == (crate::identity::unknown_name(), Seq::<char>::empty()),
    {
        let unknown = "Unknown";
        proof {
            reveal_strlit("Unknown");
        }
        assert(unknown@ =~= crate::identity::unknown_name());
        StudentConnection {
            id,
            join_code: join_code.to_owned(),
            registered: false,
            name: unknown.to_owned(),
            student_id: String::new(),
        }
    }

    /// Handles one packet from the student.
    ///
    /// `Name`: in a room with a join code, a wrong code is counted and
    /// refused; otherwise the student's older offline tiles under the same
    /// key are dropped and their tile is created or updated.
    /// `Picture`: before registering, a room with a code closes the
    /// connection; otherwise the tile gets the frame as a data URL.
    /// `Message`: the "screen capture refused" notice marks the tile.
    pub fn on_packet(
        &mut self,
        students: &mut Vec<StudentSnapshot>,
        diagnostics: &mut RoomDiagnostics,
        packet: &Packet,
        now: u128,
    ) -> (r: ConnectionStep)
        requires
            packet.payload@.len() <= isize::MAX,
        ensures
            final(self).conn_id() == old(self).conn_id(),
            final(self).room_code() == old(self).room_code(),
            final(diagnostics).probes() == old(diagnostics).probes(),
            final(diagnostics).peers() == old(diagnostics).peers(),
            unique_ids(roster_view(old(students)@)) ==> unique_ids(roster_view(final(students)@)),
            ({
                let id = old(self).conn_id();
                let before = roster_view(old(students)@);
                let after = roster_view(final(students)@);
                let requires_code = old(self).room_code().len() > 0;
                let payload = packet.payload@;
                match packet.packet_type {
                    PacketType::Name => {
                        let (code, name, sid) = identity_fields(text_of_bytes(payload));
                        if requires_code && code != old(self).room_code() {
                            &&& r.action == ConnectionAction::RejectWrongCode
                            &&& r.log is None
                            &&& after == before
                            &&& final(diagnostics).wrong_codes() == if old(diagnostics).wrong_codes()
                                == u64::MAX {
                                u64::MAX
                            } else {
                                (old(diagnostics).wrong_codes() + 1) as u64
                            }
                            &&& final(self).is_registered() == old(self).is_registered()
                            &&& final(self).identity() == old(self).identity()
                        } else {
                            let key = if sid.len() == 0 {
                                trim_spec(name)
                            } else {
                                sid
                            };
                            let base = if key.len() > 0 {
                                tombstones_dropped(before, key, id)
                            } else {
                                before
                            };
                            &&& r.action == ConnectionAction::Continue
                            &&& final(diagnostics).wrong_codes() == old(diagnostics).wrong_codes()
                            &&& final(self).is_registered()
                            &&& final(self).identity() == (name, sid)
                            &&& after == upserted(
                                base,
                                id,
                                now,
                                TileChange::Identity { name, student_id: sid, now },
                            )
                            &&& match r.log {
                                Some(ev) => !old(self).is_registered() && ev.kind == LogKind::Connect
                                    && ev.name@ == name && ev.student_id@ == sid,
                                None => old(self).is_registered(),
                            }
                        }
                    },
                    PacketType::Picture => {
                        &&& final(diagnostics).wrong_codes() == old(diagnostics).wrong_codes()
                        &&& final(self).identity() == old(self).identity()
                        &&& r.log is None
                        &&& if !old(self).is_registered() && requires_code {
                            &&& r.action == ConnectionAction::Close
                            &&& after == before
                            &&& !final(self).is_registered()
                        } else {
                            let base = if old(self).is_registered() {
                                before
                            } else {
                                upserted(before, id, now, TileChange::Touch { now })
                            };
                            &&& r.action == ConnectionAction::Continue
                            &&& final(self).is_registered()
                            &&& after == updated(
                                base,
                                id,
                                TileChange::Frame { data_url: jpeg_data_url(payload), now },
                            )
                        }
                    },
                    PacketType::Message => {
                        &&& r.action == ConnectionAction::Continue
                        &&& r.log is None
                        &&& final(diagnostics).wrong_codes() == old(diagnostics).wrong_codes()
                        &&& final(self).is_registered() == old(self).is_registered()
                        &&& final(self).identity() == old(self).identity()
                        &&& after == if is_capture_blocked_notice(payload) {
                            updated(before, id, TileChange::CaptureBlocked)
                        } else {
                            before
                        }
                    },
                }
            }),
    {
        let ghost before = roster_view(students@);
        let id = self.id;
        match packet.packet_type {
            PacketType::Name => {
                let (code, name, sid) = parse_identity(packet.payload.as_slice());
                let requires_code = !self.join_code.as_str().is_empty();
                let code_matches = code == self.join_code;
                if requires_code && !code_matches {
                    diagnostics.record_wrong_code();
                    return ConnectionStep { action: ConnectionAction::RejectWrongCode, log: None };
                }
                let key = identity_key(name.as_str(), sid.as_str());
                if !key.as_str().is_empty() {
                    drop_tombstones(students, key.as_str(), id);
                    proof {
                        if unique_ids(before) {
                            lemma_retained_unique(
                                before,
                                |v: crate::roster::StudentView| survives_reconnect(v, key@, id),
                            );
                        }
                    }
                }
                let ghost base = roster_view(students@);
                let update = StudentUpdate::Identity {
                    name: name.clone(),
                    student_id: sid.clone(),
                    now,
                };
                let ghost u = update@;
                upsert_student(students, id, now, update);
                proof {
                    if unique_ids(before) {
                        lemma_upserted_unique(base, id, now, u);
                    }
                }
                let log = if !self.registered {
                    Some(LogEvent { kind: LogKind::Connect, name: name.clone(), student_id: sid.clone() })
                } else {
                    None
                };
                self.name = name;
                self.student_id = sid;
                self.registered = true;
                ConnectionStep { action: ConnectionAction::Continue, log }
            },
            PacketType::Picture => {
                if !self.registered {
                    if !self.join_code.as_str().is_empty() {
                        return ConnectionStep { action: ConnectionAction::Close, log: None };
                    }
                    upsert_student(students, id, now, StudentUpdate::Touch { now });
                    proof {
                        if unique_ids(before) {
                            lemma_upserted_unique(before, id, now, TileChange::Touch { now });
                        }
                    }
                    self.registered = true;
                }
                let ghost base = roster_view(students@);
                let data_url = image_data_url(packet.payload.as_slice());
                let update = StudentUpdate::Frame { data_url, now };
                let ghost u = update@;
                update_student(students, id, update);
                proof {
                    if unique_ids(base) {
                        lemma_updated_unique(base, id, u);
                    }
                }
                ConnectionStep { action: ConnectionAction::Continue, log: None }
            },
            PacketType::Message => {
                let notice = CLIENT_NO_SCREEN_PERMISSION.as_bytes();
                if bytes_equal(packet.payload.as_slice(), notice) {
                    update_student(students, id, StudentUpdate::CaptureBlocked);
                    proof {
                        if unique_ids(before) {
                            lemma_updated_unique(before, id, TileChange::CaptureBlocked);
                        }
                    }
                }
                ConnectionStep { action: ConnectionAction::Continue, log: None }
            },
        }
    }

    /// Handles the end of the connection: a registered student's tile stays
    /// as an offline tombstone (and a disconnect is logged); a connection
    /// that never registered leaves no tile.
    pub fn on_close(&self, students: &mut Vec<StudentSnapshot>, now: u128) -> (r: Option<LogEvent>)
        ensures
            unique_ids(roster_view(old(students)@)) ==> unique_ids(roster_view(final(students)@)),
            self.is_registered() ==> roster_view(final(students)@) == updated(
                roster_view(old(students)@),
                self.conn_id(),
                TileChange::Disconnected { now },
            ) && r is Some && r->Some_0.kind == LogKind::Disconnect && (r->Some_0.name@,
                r->Some_0.student_id@) == self.identity(),
            !self.is_registered() ==> roster_view(final(students)@) == dismissed(
                roster_view(old(students)@),
                self.conn_id(),
            ) && r is None,
    {
        let ghost before = roster_view(students@);
        if self.registered {
            update_student(students, self.id, StudentUpdate::Disconnected { now });
            proof {
                if unique_ids(before) {
                    lemma_updated_unique(before, self.id, TileChange::Disconnected { now });
                }
            }
            Some(
                LogEvent {
                    kind: LogKind::Disconnect,
                    name: self.name.clone(),
                    student_id: self.student_id.clone(),
                },
            )
        } else {
            dismiss_student(students, self.id);
            proof {
                if unique_ids(before) {
                    lemma_retained_unique(before, |v: crate::roster::StudentView| v.id != self.id);
                }
            }
            None
        }
    }
}

/// What the dashboard shows of a running (or stopped) room.
#[derive(Clone, Debug)]
pub struct ServerSnapshot {
    pub is_running: bool,
    pub exam_name: String,
    pub course_name: String,
    pub room_number: String,
    pub students: Vec<StudentSnapshot>,
    /// Folder of this session's evidence log, if logging is on.
    pub log_dir: Option<String>,
    /// The room's join code, read out to students.
    pub join_code: String,
    /// Port derived from the join code.
    pub port: u16,
    /// Connections refused for the wrong class code.
    pub wrong_code_attempts: u64,
    /// Devices that found the room but could not connect.
    pub unreachable_devices: usize,
}

impl ServerSnapshot {
    /// The snapshot shown while no room is running.
    pub fn idle() -> (r: Self)
        ensures
            !r.is_running,
            r.exam_name@.len() == 0,
            r.course_name@.len() == 0,
            r.room_number@.len() == 0,
            r.students@.len() == 0,
            r.log_dir is None,
            r.join_code@.len() == 0,
            r.port == 0,
            r.wrong_code_attempts == 0,
            r.unreachable_devices == 0,
    {
        ServerSnapshot {
            is_running: false,
            exam_name: String::new(),
            course_name: String::new(),
            room_number: String::new(),
            students: Vec::new(),
            log_dir: None,
            join_code: String::new(),
            port: 0,
            wrong_code_attempts: 0,
            unreachable_devices: 0,
        }
    }
}

/// How many times removing the evidence folder is tried.
pub const CLEAR_ATTEMPTS: u32 = 10;

/// Pause between two tries, in milliseconds.
pub const CLEAR_RETRY_DELAY_MS: u64 = 100;

/// What became of one try to remove the evidence folder.
#[derive(Clone, Copy, Debug, PartialEq, Eq, Structural)]
pub enum RemoveOutcome {
    Removed,
    NotFound,
    Failed,
}

/// What to do after a try.
#[derive(Clone, Copy, Debug, PartialEq, Eq, Structural)]
pub enum ClearStep {
    /// The folder is gone (removed now, or already missing).
    Done,
    /// The last try failed: stop and report it.
    GiveUp,
    /// Wait this many milliseconds, then try again.
    RetryAfter(u64),
}

/// Decides what follows try number `attempt` (counted from 0) of removing
/// the evidence folder: a handler thread may still hold a file open for a
/// moment, so a failure is retried, up to `CLEAR_ATTEMPTS` tries in all.
pub fn clear_step(attempt: u32, outcome: RemoveOutcome) -> (r: ClearStep)
    ensures
        outcome != RemoveOutcome::Failed ==> r == ClearStep::Done,
        outcome == RemoveOutcome::Failed && attempt + 1 >= CLEAR_ATTEMPTS ==> r == ClearStep::GiveUp,
        outcome == RemoveOutcome::Failed && attempt + 1 < CLEAR_ATTEMPTS ==> r == ClearStep::RetryAfter(
            CLEAR_RETRY_DELAY_MS,
        ),
{
    match outcome {
        RemoveOutcome::Removed => ClearStep::Done,
        RemoveOutcome::NotFound => ClearStep::Done,
        RemoveOutcome::Failed => {
            if attempt >= CLEAR_ATTEMPTS - 1 {
                ClearStep::GiveUp
            } else {
                ClearStep::RetryAfter(CLEAR_RETRY_DELAY_MS)
            }
        },
    }
}

} // verus!
