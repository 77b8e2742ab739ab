//! The teacher's view of the room: one tile per student connection.
//!
//! A tile stays after its connection drops (a "tombstone") until the teacher
//! dismisses it or the same student reconnects.

use crate::identity::{evidence_label, identity_key, is_device_id, unknown_name};
use crate::text::{append_str, decimal_digits, push_char, push_decimal, trim_spec};
use vstd::prelude::*;

verus! {

#[derive(Clone, Debug)]
pub struct StudentSnapshot {
    pub id: u64,
    pub name: String,
    pub student_id: String,
    pub image_data_url: Option<String>,
    pub connected_at_ms: u128,
    pub last_update_ms: u128,
    /// False once the socket drops: the tile becomes a tombstone.
    pub connected: bool,
    pub disconnected_at_ms: Option<u128>,
    /// The student's OS refused screen capture.
    pub capture_blocked: bool,
}

/// A tile as plain values.
pub struct StudentView {
    pub id: u64,
    pub name: Seq<char>,
    pub student_id: Seq<char>,
    pub image_data_url: Option<Seq<char>>,
    pub connected_at_ms: u128,
    pub last_update_ms: u128,
    pub connected: bool,
    pub disconnected_at_ms: Option<u128>,
    pub capture_blocked: bool,
}

pub open spec fn option_string_view(s: Option<String>) -> Option<Seq<char>> {
    match s {
        Some(t) => Some(t@),
        None => None,
    }
}

impl View for StudentSnapshot {
    type V = StudentView;

    open spec fn view(&self) -> StudentView {
        StudentView {
            id: self.id,
            name: self.name@,
            student_id: self.student_id@,
            image_data_url: option_string_view(self.image_data_url),
            connected_at_ms: self.connected_at_ms,
            last_update_ms: self.last_update_ms,
            connected: self.connected,
            disconnected_at_ms: self.disconnected_at_ms,
            capture_blocked: self.capture_blocked,
        }
    }
}

/// The tiles of a roster, in order.
pub open spec fn roster_view(s: Seq<StudentSnapshot>) -> Seq<StudentView> {
    Seq::new(s.len(), |i: int| s[i]@)
}

/// No two tiles share an id.
pub open spec fn unique_ids(r: Seq<StudentView>) -> bool {
    forall|i: int, j: int| 0 <= i < j < r.len() ==> r[i].id != r[j].id
}

/// `k` is the first tile with this id.
pub open spec fn is_first_with_id(r: Seq<StudentView>, id: u64, k: int) -> bool {
    &&& 0 <= k < r.len()
    &&& r[k].id == id
    &&& forall|j: int| 0 <= j < k ==> r[j].id != id
}

/// The position of the first tile with this id, if any.
pub open spec fn first_index(r: Seq<StudentView>, id: u64) -> Option<int> {
    if exists|k: int| is_first_with_id(r, id, k) {
        Some(choose|k: int| is_first_with_id(r, id, k))
    } else {
        None
    }
}

/// A change to one tile.
pub enum StudentUpdate {
    /// The student (re)sent their identity. An empty name keeps the old one.
    Identity { name: String, student_id: String, now: u128 },
    /// Something arrived from the student.
    Touch { now: u128 },
    /// A screen frame arrived, as a data URL.
    Frame { data_url: String, now: u128 },
    /// The student's OS refused screen capture.
    CaptureBlocked,
    /// The connection dropped.
    Disconnected { now: u128 },
}

/// A change to one tile, as plain values.
pub enum TileChange {
    Identity { name: Seq<char>, student_id: Seq<char>, now: u128 },
    Touch { now: u128 },
    Frame { data_url: Seq<char>, now: u128 },
    CaptureBlocked,
    Disconnected { now: u128 },
}

impl View for StudentUpdate {
    type V = TileChange;

    open spec fn view(&self) -> TileChange {
        match self {
            StudentUpdate::Identity { name, student_id, now } => TileChange::Identity {
                name: name@,
                student_id: student_id@,
                now: *now,
            },
            StudentUpdate::Touch { now } => TileChange::Touch { now: *now },
            StudentUpdate::Frame { data_url, now } => TileChange::Frame {
                data_url: data_url@,
                now: *now,
            },
            StudentUpdate::CaptureBlocked => TileChange::CaptureBlocked,
            StudentUpdate::Disconnected { now } => TileChange::Disconnected { now: *now },
        }
    }
}

impl TileChange {
    pub open spec fn apply(self, v: StudentView) -> StudentView {
        match self {
            TileChange::Identity { name, student_id, now } => StudentView {
                name: if name.len() > 0 {
                    name
                } else {
                    v.name
                },
                student_id: student_id,
                last_update_ms: now,
                ..v
            },
            TileChange::Touch { now } => StudentView { last_update_ms: now, ..v },
            TileChange::Frame { data_url, now } => StudentView {
                image_data_url: Some(data_url),
                last_update_ms: now,
                ..v
            },
            TileChange::CaptureBlocked => StudentView { capture_blocked: true, ..v },
            TileChange::Disconnected { now } => StudentView {
                connected: false,
                disconnected_at_ms: Some(now),
                ..v
            },
        }
    }
}

/// The roster with the first tile of this id changed (unchanged when there
/// is none).
pub open spec fn updated(r: Seq<StudentView>, id: u64, u: TileChange) -> Seq<StudentView> {
    match first_index(r, id) {
        Some(k) => r.update(k, u.apply(r[k])),
        None => r,
    }
}

/// A new tile: "Unknown", connected, seen now.
pub open spec fn fresh_student(id: u64, now: u128) -> StudentView {
    StudentView {
        id,
        name: unknown_name(),
        student_id: Seq::empty(),
        image_data_url: None,
        connected_at_ms: now,
        last_update_ms: now,
        connected: true,
        disconnected_at_ms: None,
        capture_blocked: false,
    }
}

/// The roster with a tile for this id (a fresh one appended if there was
/// none), then that tile changed.
pub open spec fn upserted(r: Seq<StudentView>, id: u64, now: u128, u: TileChange) -> Seq<
    StudentView,
> {
    updated(
        if first_index(r, id) is None {
            r.push(fresh_student(id, now))
        } else {
            r
        },
        id,
        u,
    )
}

/// The tiles that satisfy `keep`, in order.
pub open spec fn retained(r: Seq<StudentView>, keep: spec_fn(StudentView) -> bool) -> Seq<
    StudentView,
>
    decreases r.len(),
{
    if r.len() == 0 {
        r
    } else if keep(r.last()) {
        retained(r.drop_last(), keep).push(r.last())
    } else {
        retained(r.drop_last(), keep)
    }
}

/// How a tile is recognised across reconnects (see `identity_key`).
pub open spec fn key_of(v: StudentView) -> Seq<char> {
    if v.student_id.len() == 0 {
        trim_spec(v.name)
    } else {
        v.student_id
    }
}

/// Whether a tile survives when the student with `key` connects as `keep_id`:
/// it does unless it is somebody else's connection, offline, with that key.
pub open spec fn survives_reconnect(v: StudentView, key: Seq<char>, keep_id: u64) -> bool {
    v.id == keep_id || v.connected || key_of(v) != key
}

pub open spec fn tombstones_dropped(r: Seq<StudentView>, key: Seq<char>, keep_id: u64) -> Seq<
    StudentView,
> {
    retained(r, |v: StudentView| survives_reconnect(v, key, keep_id))
}

pub open spec fn dismissed(r: Seq<StudentView>, id: u64) -> Seq<StudentView> {
    retained(r, |v: StudentView| v.id != id)
}

proof fn lemma_retained_subset(r: Seq<StudentView>, keep: spec_fn(StudentView) -> bool)
    ensures
        forall|i: int|
            0 <= i < retained(r, keep).len() ==> r.contains(#[trigger] retained(r, keep)[i])
                && keep(retained(r, keep)[i]),
        retained(r, keep).len() <= r.len(),
    decreases r.len(),
{
    if r.len() > 0 {
        lemma_retained_subset(r.drop_last(), keep);
        let rest = retained(r.drop_last(), keep);
        assert forall|i: int| 0 <= i < retained(r, keep).len() implies r.contains(
            #[trigger] retained(r, keep)[i],
        ) && keep(retained(r, keep)[i]) by {
            if i < rest.len() {
                let x = rest[i];
                let k = choose|k: int| 0 <= k < r.drop_last().len() && r.drop_last()[k] == x;
                assert(r[k] == x);
            } else {
                assert(r[r.len() - 1] == r.last());
            }
        }
    }
}

/// Every tile that satisfies `keep` is still there after the others are dropped.
proof fn lemma_retained_keeps(r: Seq<StudentView>, keep: spec_fn(StudentView) -> bool)
    ensures
        forall|v: StudentView| r.contains(v) && keep(v) ==> #[trigger] retained(r, keep).contains(v),
    decreases r.len(),
{
    if r.len() > 0 {
        let init = r.drop_last();
        lemma_retained_keeps(init, keep);
        let rest = retained(init, keep);
        assert forall|v: StudentView| r.contains(v) && keep(v) implies #[trigger] retained(
            r,
            keep,
        ).contains(v) by {
            let k = choose|k: int| 0 <= k < r.len() && r[k] == v;
            if k == r.len() - 1 {
                assert(retained(r, keep)[retained(r, keep).len() - 1] == v);
            } else {
                assert(init[k] == v);
                assert(init.contains(v));
                assert(rest.contains(v));
                let m = choose|m: int| 0 <= m < rest.len() && rest[m] == v;
                if keep(r.last()) {
                    assert(retained(r, keep)[m] == v);
                } else {
                    assert(retained(r, keep) == rest);
                }
            }
        }
    }
}

/// Dismissing an id removes every tile with that id and no other tile.
pub proof fn lemma_dismiss_removes_exactly(r: Seq<StudentView>, id: u64)
    ensures
        forall|i: int| 0 <= i < dismissed(r, id).len() ==> (#[trigger] dismissed(r, id)[i]).id != id,
        forall|v: StudentView| r.contains(v) && v.id != id ==> #[trigger] dismissed(r, id).contains(v),
{
    lemma_retained_subset(r, |v: StudentView| v.id != id);
    lemma_retained_keeps(r, |v: StudentView| v.id != id);
}

/// When a student reconnects, every tile other than that student's stale
/// offline ones stays: live tiles and other students' tombstones survive.
pub proof fn lemma_reconnect_keeps_other_tiles(r: Seq<StudentView>, key: Seq<char>, keep_id: u64)
    ensures
        forall|v: StudentView|
            r.contains(v) && survives_reconnect(v, key, keep_id) ==> #[trigger] tombstones_dropped(
                r,
                key,
                keep_id,
            ).contains(v),
        forall|i: int|
            0 <= i < tombstones_dropped(r, key, keep_id).len() ==> r.contains(
                #[trigger] tombstones_dropped(r, key, keep_id)[i],
            ),
{
    lemma_retained_subset(r, |v: StudentView| survives_reconnect(v, key, keep_id));
    lemma_retained_keeps(r, |v: StudentView| survives_reconnect(v, key, keep_id));
}

/// Dropping tiles keeps the ids of a roster unique.
pub proof fn lemma_retained_unique(r: Seq<StudentView>, keep: spec_fn(StudentView) -> bool)
    requires
        unique_ids(r),
    ensures
        unique_ids(retained(r, keep)),
    decreases r.len(),
{
    if r.len() > 0 {
        let init = r.drop_last();
        assert(unique_ids(init));
        lemma_retained_unique(init, keep);
        lemma_retained_subset(init, keep);
        let rest = retained(init, keep);
        if keep(r.last()) {
            assert forall|i: int| 0 <= i < rest.len() implies rest[i].id != r.last().id by {
                let x = rest[i];
                assert(init.contains(x));
                let k = choose|k: int| 0 <= k < init.len() && init[k] == x;
                assert(r[k] == x);
                assert(r[r.len() - 1] == r.last());
            }
        }
    }
}

proof fn lemma_first_index_unique(r: Seq<StudentView>, id: u64, k: int)
    requires
        is_first_with_id(r, id, k),
    ensures
        first_index(r, id) == Some(k),
{
    let c = choose|c: int| is_first_with_id(r, id, c);
    assert(c == k);
}

/// Changing a tile keeps the ids of a roster unique.
pub proof fn lemma_updated_unique(r: Seq<StudentView>, id: u64, u: TileChange)
    requires
        unique_ids(r),
    ensures
        unique_ids(updated(r, id, u)),
        updated(r, id, u).len() == r.len(),
        forall|i: int| 0 <= i < r.len() ==> #[trigger] updated(r, id, u)[i].id == r[i].id,
{
}

/// Adding a tile for an id keeps the ids of a roster unique.
pub proof fn lemma_upserted_unique(r: Seq<StudentView>, id: u64, now: u128, u: TileChange)
    requires
        unique_ids(r),
    ensures
        unique_ids(upserted(r, id, now, u)),
        first_index(upserted(r, id, now, u), id) is Some,
{
    if first_index(r, id) is None {
        let r2 = r.push(fresh_student(id, now));
        assert forall|j: int| 0 <= j < r.len() implies r[j].id != id by {
            if r[j].id == id {
                let k = choose|k: int| 0 <= k <= j && r[k].id == id && forall|m: int|
                    0 <= m < k ==> r[m].id != id;
                assert(is_first_with_id(r, id, k)) by {
                    lemma_least_index(r, id, j);
                }
            }
        }
        assert(unique_ids(r2));
        assert(is_first_with_id(r2, id, r.len() as int));
        lemma_first_index_unique(r2, id, r.len() as int);
        lemma_updated_unique(r2, id, u);
        let r3 = upserted(r, id, now, u);
        assert(r3[r.len() as int].id == id);
        assert(is_first_with_id(r3, id, r.len() as int));
    } else {
        lemma_updated_unique(r, id, u);
        let k = first_index(r, id)->Some_0;
        let r3 = upserted(r, id, now, u);
        assert(is_first_with_id(r, id, k));
        assert(is_first_with_id(r3, id, k));
    }
}

/// If some tile has the id, a first such tile exists.
proof fn lemma_least_index(r: Seq<StudentView>, id: u64, j: int)
    requires
        0 <= j < r.len(),
        r[j].id == id,
    ensures
        exists|k: int| is_first_with_id(r, id, k),
    decreases j,
{
    if exists|m: int| 0 <= m < j && r[m].id == id {
        let m = choose|m: int| 0 <= m < j && r[m].id == id;
        lemma_least_index(r, id, m);
    } else {
        assert(is_first_with_id(r, id, j));
    }
}

/// After a student connects as `keep_id` under `key`, no other offline tile
/// with that key is left: a reconnecting student replaces their own tombstone.
pub proof fn lemma_reconnect_leaves_no_stale_tombstone(
    r: Seq<StudentView>,
    key: Seq<char>,
    keep_id: u64,
    now: u128,
    u: TileChange,
)
    ensures
        forall|i: int|
            0 <= i < upserted(tombstones_dropped(r, key, keep_id), keep_id, now, u).len()
                ==> survives_reconnect(
                #[trigger] upserted(tombstones_dropped(r, key, keep_id), keep_id, now, u)[i],
                key,
                keep_id,
            ),
{
    let d = tombstones_dropped(r, key, keep_id);
    lemma_retained_subset(r, |v: StudentView| survives_reconnect(v, key, keep_id));
    assert(forall|i: int| 0 <= i < d.len() ==> survives_reconnect(#[trigger] d[i], key, keep_id));
    let base = if first_index(d, keep_id) is None {
        d.push(fresh_student(keep_id, now))
    } else {
        d
    };
    assert(forall|i: int|
        0 <= i < base.len() ==> survives_reconnect(#[trigger] base[i], key, keep_id));
    let res = upserted(d, keep_id, now, u);
    assert forall|i: int| 0 <= i < res.len() implies survives_reconnect(
        #[trigger] res[i],
        key,
        keep_id,
    ) by {
        match first_index(base, keep_id) {
            Some(k) => {
                let c = choose|c: int| is_first_with_id(base, keep_id, c);
                if i == c {
                    assert(res[i].id == keep_id);
                } else {
                    assert(res[i] == base[i]);
                }
            },
            None => {
                assert(res[i] == base[i]);
            },
        }
    }
}

/// Upserting the tile of `id` leaves every tile of another id where it was.
proof fn lemma_upserted_keeps_others(r: Seq<StudentView>, id: u64, now: u128, u: TileChange)
    ensures
        forall|j: int|
            0 <= j < r.len() && r[j].id != id ==> #[trigger] upserted(r, id, now, u)[j] == r[j]
                && j < upserted(r, id, now, u).len(),
{
    let base = if first_index(r, id) is None {
        r.push(fresh_student(id, now))
    } else {
        r
    };
    match first_index(base, id) {
        Some(k) => {
            let c = choose|c: int| is_first_with_id(base, id, c);
            assert forall|j: int| 0 <= j < r.len() && r[j].id != id implies #[trigger] upserted(
                r,
                id,
                now,
                u,
            )[j] == r[j] && j < upserted(r, id, now, u).len() by {
                assert(base[j] == r[j]);
                assert(j != c);
            }
        },
        None => {
            assert forall|j: int| 0 <= j < r.len() && r[j].id != id implies #[trigger] upserted(
                r,
                id,
                now,
                u,
            )[j] == r[j] && j < upserted(r, id, now, u).len() by {
                assert(base[j] == r[j]);
            }
        },
    }
}

/// When connection `c` registers (dropping the offline tiles under its
/// key, then creating or updating its own tile), every tile that was
/// connected is still there: reconnect dedup removes only offline tiles. The
/// registering connection always has a tile afterwards.
pub proof fn lemma_registration_keeps_live_tiles(
    r: Seq<StudentView>,
    key: Seq<char>,
    c: u64,
    now: u128,
    u: TileChange,
)
    ensures
        forall|v: StudentView|
            r.contains(v) && v.connected && v.id != c ==> #[trigger] upserted(
                tombstones_dropped(r, key, c),
                c,
                now,
                u,
            ).contains(v),
        forall|v: StudentView|
            r.contains(v) && v.id != c && key_of(v) != key ==> #[trigger] upserted(
                tombstones_dropped(r, key, c),
                c,
                now,
                u,
            ).contains(v),
        exists|j: int|
            0 <= j < upserted(tombstones_dropped(r, key, c), c, now, u).len() && (#[trigger] upserted(
                tombstones_dropped(r, key, c),
                c,
                now,
                u,
            )[j]).id == c,
{
    let d = tombstones_dropped(r, key, c);
    let res = upserted(d, c, now, u);
    lemma_retained_subset(r, |v: StudentView| survives_reconnect(v, key, c));
    lemma_retained_keeps(r, |v: StudentView| survives_reconnect(v, key, c));
    lemma_upserted_keeps_others(d, c, now, u);
    assert forall|v: StudentView|
        r.contains(v) && (v.connected || key_of(v) != key) && v.id != c implies #[trigger] res.contains(v) by {
        assert(survives_reconnect(v, key, c));
        assert(d.contains(v));
        let j = choose|j: int| 0 <= j < d.len() && d[j] == v;
        assert(res[j] == d[j]);
    }
    // the registering connection's tile
    let base = if first_index(d, c) is None {
        d.push(fresh_student(c, now))
    } else {
        d
    };
    if first_index(d, c) is None {
        assert(base[d.len() as int].id == c);
        lemma_least_index(base, c, d.len() as int);
    } else {
        let k = first_index(d, c)->Some_0;
        let k0 = choose|k0: int| is_first_with_id(d, c, k0);
        assert(is_first_with_id(d, c, k0));
        lemma_least_index(base, c, k0);
    }
    let k = first_index(base, c)->Some_0;
    let kk = choose|kk: int| is_first_with_id(base, c, kk);
    assert(is_first_with_id(base, c, kk));
    assert(res[kk].id == c);
}

/// A new tile for a connection: "Unknown", connected, seen now.
pub fn new_student(id: u64, now: u128) -> (s: StudentSnapshot)
    ensures
        s@ == fresh_student(id, now),
{
    let unknown = "Unknown";
    proof {
        reveal_strlit("Unknown");
    }
    assert(unknown@ =~= unknown_name());
    let s = StudentSnapshot {
        id,
        name: unknown.to_owned(),
        student_id: String::new(),
        image_data_url: None,
        connected_at_ms: now,
        last_update_ms: now,
        connected: true,
        disconnected_at_ms: None,
        capture_blocked: false,
    };
    assert(s@.student_id =~= Seq::<char>::empty());
    s
}

fn apply_update(student: &mut StudentSnapshot, update: StudentUpdate)
    ensures
        final(student)@ == update@.apply(old(student)@),
{
    match update {
        StudentUpdate::Identity { name, student_id, now } => {
            if !name.as_str().is_empty() {
                student.name = name;
            }
            student.student_id = student_id;
            student.last_update_ms = now;
        },
        StudentUpdate::Touch { now } => {
            student.last_update_ms = now;
        },
        StudentUpdate::Frame { data_url, now } => {
            student.image_data_url = Some(data_url);
            student.last_update_ms = now;
        },
        StudentUpdate::CaptureBlocked => {
            student.capture_blocked = true;
        },
        StudentUpdate::Disconnected { now } => {
            student.connected = false;
            student.disconnected_at_ms = Some(now);
        },
    }
}

/// The position of the first tile with this id, if any.
fn find_student(students: &Vec<StudentSnapshot>, id: u64) -> (r: Option<usize>)
    ensures
        match first_index(roster_view(students@), id) {
            Some(k) => r == Some(k as usize),
            None => r is None,
        },
{
    let ghost rv = roster_view(students@);
    let mut i: usize = 0;
    while i < students.len()
        invariant
            0 <= i <= students@.len(),
            rv == roster_view(students@),
            forall|j: int| 0 <= j < i ==> rv[j].id != id,
        decreases students@.len() - i,
    {
        if students[i].id == id {
            assert(is_first_with_id(rv, id, i as int));
            proof {
                lemma_first_index_unique(rv, id, i as int);
            }
            return Some(i);
        }
        i = i + 1;
    }
    assert(!exists|k: int| is_first_with_id(rv, id, k));
    None
}

/// Changes the first tile with this id; does nothing when there is none.
pub fn update_student(students: &mut Vec<StudentSnapshot>, id: u64, update: StudentUpdate)
    ensures
        roster_view(final(students)@) == updated(roster_view(old(students)@), id, update@),
{
    let ghost before = roster_view(students@);
    match find_student(students, id) {
        Some(k) => {
            let mut student = students.remove(k);
            let ghost change = update@;
            apply_update(&mut student, update);
            students.insert(k, student);
            assert(roster_view(students@) =~= before.update(k as int, change.apply(before[k as int])));
        },
        None => {},
    }
}

/// Adds a fresh tile for this id if there is none, then changes it.
pub fn upsert_student(
    students: &mut Vec<StudentSnapshot>,
    id: u64,
    now: u128,
    update: StudentUpdate,
)
    ensures
        roster_view(final(students)@) == upserted(roster_view(old(students)@), id, now, update@),
{
    let ghost before = roster_view(students@);
    let ghost change = update@;
    if find_student(students, id).is_none() {
        students.push(new_student(id, now));
        assert(roster_view(students@) =~= before.push(fresh_student(id, now)));
    }
    update_student(students, id, update);
}

/// Removes every tile that fails `keep_tile`, keeping the order of the rest.
fn retain_students(
    students: &mut Vec<StudentSnapshot>,
    keep_id: u64,
    key: &str,
    dismiss: bool,
)
    ensures
        roster_view(final(students)@) == if dismiss {
            dismissed(roster_view(old(students)@), keep_id)
        } else {
            tombstones_dropped(roster_view(old(students)@), key@, keep_id)
        },
{
    let ghost keep = if dismiss {
        |v: StudentView| v.id != keep_id
    } else {
        |v: StudentView| survives_reconnect(v, key@, keep_id)
    };
    let ghost orig = roster_view(students@);
    let key_owned = key.to_owned();
    let mut i: usize = 0;
    let ghost mut j: int = 0;
    while i < students.len()
        invariant
            0 <= i <= students@.len(),
            0 <= j <= orig.len(),
            keep == if dismiss {
                |v: StudentView| v.id != keep_id
            } else {
                |v: StudentView| survives_reconnect(v, key@, keep_id)
            },
            students@.len() - i == orig.len() - j,
            key_owned@ == key@,
            roster_view(students@).subrange(0, i as int) == retained(orig.subrange(0, j), keep),
            roster_view(students@).subrange(i as int, students@.len() as int) == orig.subrange(
                j,
                orig.len() as int,
            ),
        decreases students@.len() - i,
    {
        let ghost cur = roster_view(students@);
        assert(j < orig.len());
        assert(cur.subrange(i as int, cur.len() as int)[0] == cur[i as int]);
        assert(orig.subrange(j, orig.len() as int)[0] == orig[j]);
        assert(cur[i as int] == orig[j]);
        let ghost next = orig.subrange(0, j + 1);
        assert(next.drop_last() =~= orig.subrange(0, j));
        assert(next.last() == orig[j]);
        let survives = if dismiss {
            students[i].id != keep_id
        } else {
            let k = identity_key(students[i].name.as_str(), students[i].student_id.as_str());
            let same_key = k == key_owned;
            assert(k@ == key_of(cur[i as int]));
            students[i].id == keep_id || students[i].connected || !same_key
        };
        assert(survives == keep(orig[j]));
        if survives {
            i = i + 1;
            proof {
                j = j + 1;
            }
            assert(roster_view(students@).subrange(0, i as int) =~= cur.subrange(0, i - 1).push(
                cur[i - 1],
            ));
            assert(roster_view(students@).subrange(i as int, students@.len() as int) =~= orig.subrange(
                j,
                orig.len() as int,
            )) by {
                assert(cur.subrange(i - 1, cur.len() as int).drop_first() =~= cur.subrange(
                    i as int,
                    cur.len() as int,
                ));
                assert(orig.subrange(j - 1, orig.len() as int).drop_first() =~= orig.subrange(
                    j,
                    orig.len() as int,
                ));
            }
        } else {
            students.remove(i);
            proof {
                j = j + 1;
            }
            let ghost after = roster_view(students@);
            assert(after.subrange(0, i as int) =~= cur.subrange(0, i as int));
            assert(after.subrange(i as int, after.len() as int) =~= cur.subrange(
                i + 1,
                cur.len() as int,
            ));
            assert(cur.subrange(i as int, cur.len() as int).drop_first() =~= cur.subrange(
                i + 1,
                cur.len() as int,
            ));
            assert(orig.subrange(j - 1, orig.len() as int).drop_first() =~= orig.subrange(
                j,
                orig.len() as int,
            ));
        }
    }
    assert(orig.subrange(j, orig.len() as int).len() == 0);
    assert(orig.subrange(0, j) =~= orig);
    assert(roster_view(students@).subrange(0, i as int) =~= roster_view(students@));
}

/// Removes offline tiles of the student with `key`, other than the live
/// connection `keep_id`, so a reconnecting student collapses back to a
/// single tile.
pub fn drop_tombstones(students: &mut Vec<StudentSnapshot>, key: &str, keep_id: u64)
    ensures
        roster_view(final(students)@) == tombstones_dropped(roster_view(old(students)@), key@, keep_id),
{
    retain_students(students, keep_id, key, false);
}

/// Removes every tile with this id (a dismissed tombstone, or any student).
pub fn dismiss_student(students: &mut Vec<StudentSnapshot>, id: u64)
    ensures
        roster_view(final(students)@) == dismissed(roster_view(old(students)@), id),
{
    retain_students(students, id, "", true);
}

/// The label a saved frame is filed under: the evidence label, or
/// `id<n>` when that is empty.
pub open spec fn frame_label(v: StudentView) -> Seq<char> {
    let label = if v.student_id.len() == 0 || is_device_id(v.student_id) {
        trim_spec(v.name)
    } else {
        v.student_id
    };
    if label.len() == 0 {
        seq!['i', 'd'] + decimal_digits(v.id as nat)
    } else {
        label
    }
}

/// (label, data URL) of the latest frame of every connected student that
/// has sent one, in roster order.
pub open spec fn evidence_of(r: Seq<StudentView>) -> Seq<(Seq<char>, Seq<char>)>
    decreases r.len(),
{
    if r.len() == 0 {
        Seq::empty()
    } else {
        let v = r.last();
        let rest = evidence_of(r.drop_last());
        if v.connected && v.image_data_url is Some {
            rest.push((frame_label(v), v.image_data_url->Some_0))
        } else {
            rest
        }
    }
}

/// One frame to file as evidence.
pub struct EvidenceFrame {
    pub label: String,
    pub data_url: String,
}

/// The frames the evidence logger saves in one round.
pub fn evidence_frames(students: &Vec<StudentSnapshot>) -> (r: Vec<EvidenceFrame>)
    ensures
        Seq::new(r@.len(), |i: int| (r@[i].label@, r@[i].data_url@)) == evidence_of(
            roster_view(students@),
        ),
{
    let ghost rv = roster_view(students@);
    let mut out: Vec<EvidenceFrame> = Vec::new();
    let mut i: usize = 0;
    while i < students.len()
        invariant
            0 <= i <= students@.len(),
            rv == roster_view(students@),
            Seq::new(out@.len(), |k: int| (out@[k].label@, out@[k].data_url@)) == evidence_of(
                rv.subrange(0, i as int),
            ),
        decreases students@.len() - i,
    {
        let ghost prev = Seq::new(out@.len(), |k: int| (out@[k].label@, out@[k].data_url@));
        assert(rv.subrange(0, i + 1).drop_last() =~= rv.subrange(0, i as int));
        let student = &students[i];
        if student.connected {
            match &student.image_data_url {
                Some(url) => {
                    let mut label = evidence_label(student.name.as_str(), student.student_id.as_str());
                    if label.as_str().is_empty() {
                        label = String::new();
                        push_char(&mut label, 'i');
                        push_char(&mut label, 'd');
                        push_decimal(&mut label, student.id as u128);
                    }
                    assert(rv[i as int] == student@);
                    assert(student@.image_data_url == Some(url@));
                    assert(label@ == frame_label(rv[i as int]));
                    out.push(EvidenceFrame { label, data_url: url.clone() });
                    assert(Seq::new(out@.len(), |k: int| (out@[k].label@, out@[k].data_url@))
                        =~= prev.push((frame_label(rv[i as int]), url@)));
                },
                None => {},
            }
        }
        i = i + 1;
    }
    assert(rv.subrange(0, students@.len() as int) =~= rv);
    out
}

/// A student ID that is filled in and is not a generated `dev:` device id.
pub open spec fn is_real_student_id(sid: Seq<char>) -> bool {
    sid.len() > 0 && !(sid.len() >= 4 && sid.subrange(0, 4) == seq!['d', 'e', 'v', ':'])
}

/// Every connected tile with a frame has an entry in the evidence: its
/// frame, filed under the tile's label.
proof fn lemma_evidence_has_tile(r: Seq<StudentView>, i: int)
    requires
        0 <= i < r.len(),
        r[i].connected,
        r[i].image_data_url is Some,
    ensures
        evidence_of(r).contains((frame_label(r[i]), r[i].image_data_url->Some_0)),
    decreases r.len(),
{
    let e = (frame_label(r[i]), r[i].image_data_url->Some_0);
    if i == r.len() - 1 {
        assert(r.last() == r[i]);
        let rest = evidence_of(r.drop_last());
        assert(evidence_of(r) == rest.push(e));
        assert(evidence_of(r)[rest.len() as int] == e);
    } else {
        assert(r.drop_last()[i] == r[i]);
        lemma_evidence_has_tile(r.drop_last(), i);
        let rest = evidence_of(r.drop_last());
        let k = choose|k: int| 0 <= k < rest.len() && rest[k] == e;
        assert(evidence_of(r)[k] == e);
    }
}

/// Every evidence entry is the frame of a connected tile.
proof fn lemma_evidence_from_tiles(r: Seq<StudentView>)
    ensures
        forall|k: int|
            #![trigger evidence_of(r)[k]]
            0 <= k < evidence_of(r).len() ==> exists|i: int|
                0 <= i < r.len() && r[i].connected && #[trigger] r[i].image_data_url == Some(
                    evidence_of(r)[k].1,
                ),
    decreases r.len(),
{
    if r.len() > 0 {
        let init = r.drop_last();
        lemma_evidence_from_tiles(init);
        let rest = evidence_of(init);
        assert forall|k: int| #![trigger evidence_of(r)[k]] 0 <= k < evidence_of(r).len() implies exists|i: int|
            0 <= i < r.len() && r[i].connected && #[trigger] r[i].image_data_url == Some(
                evidence_of(r)[k].1,
            ) by {
            if k < rest.len() {
                assert(evidence_of(r)[k] == rest[k]);
                let i = choose|i: int|
                    0 <= i < init.len() && init[i].connected && #[trigger] init[i].image_data_url
                        == Some(rest[k].1);
                assert(r[i] == init[i]);
            } else {
                let i = r.len() - 1;
                assert(r[i] == r.last());
            }
        }
    }
}

/// Each connected student's latest frame is filed: under the student ID
/// when a real one was sent (not a generated `dev:` id), otherwise under
/// the trimmed name when there is one. Nothing but connected students'
/// frames is filed.
pub proof fn lemma_evidence_labels(r: Seq<StudentView>)
    ensures
        forall|i: int|
            0 <= i < r.len() && r[i].connected && r[i].image_data_url is Some
                && is_real_student_id(r[i].student_id) ==> #[trigger] evidence_of(r).contains(
                (r[i].student_id, r[i].image_data_url->Some_0),
            ),
        forall|i: int|
            0 <= i < r.len() && r[i].connected && r[i].image_data_url is Some
                && !is_real_student_id(r[i].student_id) && trim_spec(r[i].name).len() > 0
                ==> #[trigger] evidence_of(r).contains(
                (trim_spec(r[i].name), r[i].image_data_url->Some_0),
            ),
        forall|k: int|
            #![trigger evidence_of(r)[k]]
            0 <= k < evidence_of(r).len() ==> exists|i: int|
                0 <= i < r.len() && r[i].connected && #[trigger] r[i].image_data_url == Some(
                    evidence_of(r)[k].1,
                ),
{
    reveal_strlit("dev:");
    assert(crate::protocol::DEVICE_ID_PREFIX@ =~= seq!['d', 'e', 'v', ':']);
    assert forall|i: int|
        0 <= i < r.len() && r[i].connected && r[i].image_data_url is Some && is_real_student_id(
            r[i].student_id,
        ) implies #[trigger] evidence_of(r).contains(
        (r[i].student_id, r[i].image_data_url->Some_0),
    ) by {
        lemma_evidence_has_tile(r, i);
        assert(!is_device_id(r[i].student_id));
    }
    assert forall|i: int|
        0 <= i < r.len() && r[i].connected && r[i].image_data_url is Some && !is_real_student_id(
            r[i].student_id,
        ) && trim_spec(r[i].name).len() > 0 implies #[trigger] evidence_of(r).contains(
        (trim_spec(r[i].name), r[i].image_data_url->Some_0),
    ) by {
        lemma_evidence_has_tile(r, i);
        assert(r[i].student_id.len() == 0 || is_device_id(r[i].student_id));
    }
    lemma_evidence_from_tiles(r);
}

} // verus!
