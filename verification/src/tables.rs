//! The rows of the history store, and what they stand for.
use crate::text::same;
use vstd::prelude::*;

verus! {

/// The text of an optional string.
pub open spec fn opt_text(o: Option<String>) -> Option<Seq<char>> {
    match o {
        Some(s) => Some(s@),
        None => None,
    }
}

/// The bytes of an optional vector.
pub open spec fn opt_bytes(o: Option<Vec<u8>>) -> Option<Seq<u8>> {
    match o {
        Some(v) => Some(v@),
        None => None,
    }
}

/// The number of an optional machine integer.
pub open spec fn opt_int(o: Option<i64>) -> Option<int> {
    match o {
        Some(n) => Some(n as int),
        None => None,
    }
}

/// A copy of a byte vector.
pub fn copy_bytes(v: &Vec<u8>) -> (r: Vec<u8>)
    ensures
        r@ == v@,
{
    let r = v.clone();
    assert(r@ =~= v@);
    r
}

/// A vector with the bytes of a slice.
pub fn bytes_of(s: &[u8]) -> (r: Vec<u8>)
    ensures
        r@ == s@,
{
    let mut r: Vec<u8> = Vec::new();
    r.extend_from_slice(s);
    assert(r@ =~= s@);
    r
}

/// A copy of an optional byte vector.
pub fn copy_opt_bytes(o: &Option<Vec<u8>>) -> (r: Option<Vec<u8>>)
    ensures
        opt_bytes(r) == opt_bytes(*o),
{
    match o {
        Some(v) => Some(copy_bytes(v)),
        None => None,
    }
}

/// A copy of an optional string.
pub fn copy_opt_text(o: &Option<String>) -> (r: Option<String>)
    ensures
        opt_text(r) == opt_text(*o),
{
    match o {
        Some(s) => Some(s.clone()),
        None => None,
    }
}

/// One clip of the history. A clip taken over from another device has no
/// `payload_hash`, and a clip from before clips were shared has no `uuid`.
#[derive(Debug, Clone)]
pub struct ClipRow {
    pub id: i64,
    pub uuid: Option<String>,
    pub content_type: String,
    pub encrypted_payload: Vec<u8>,
    pub timestamp: i64,
    pub pinned: bool,
    pub is_deleted: bool,
    pub is_locked: bool,
    pub payload_hash: Option<String>,
    pub has_attachment: bool,
    pub attachment_path: Option<String>,
}

/// What a clip row stands for.
#[verifier::ext_equal]
pub struct ClipView {
    pub id: int,
    pub uuid: Option<Seq<char>>,
    pub content_type: Seq<char>,
    pub encrypted_payload: Seq<u8>,
    pub timestamp: int,
    pub pinned: bool,
    pub is_deleted: bool,
    pub is_locked: bool,
    pub payload_hash: Option<Seq<char>>,
    pub has_attachment: bool,
    pub attachment_path: Option<Seq<char>>,
}

impl View for ClipRow {
    type V = ClipView;

    open spec fn view(&self) -> ClipView {
        ClipView {
            id: self.id as int,
            uuid: opt_text(self.uuid),
            content_type: self.content_type@,
            encrypted_payload: self.encrypted_payload@,
            timestamp: self.timestamp as int,
            pinned: self.pinned,
            is_deleted: self.is_deleted,
            is_locked: self.is_locked,
            payload_hash: opt_text(self.payload_hash),
            has_attachment: self.has_attachment,
            attachment_path: opt_text(self.attachment_path),
        }
    }
}

impl ClipRow {
    /// A copy of the row.
    pub fn copy(&self) -> (r: ClipRow)
        ensures
            r@ == self@,
    {
        ClipRow {
            id: self.id,
            uuid: copy_opt_text(&self.uuid),
            content_type: self.content_type.clone(),
            encrypted_payload: copy_bytes(&self.encrypted_payload),
            timestamp: self.timestamp,
            pinned: self.pinned,
            is_deleted: self.is_deleted,
            is_locked: self.is_locked,
            payload_hash: copy_opt_text(&self.payload_hash),
            has_attachment: self.has_attachment,
            attachment_path: copy_opt_text(&self.attachment_path),
        }
    }
}

/// One entry of the event log.
#[derive(Debug, Clone)]
pub struct EventRow {
    pub id: i64,
    pub event_type: String,
    pub clip_uuid: String,
    pub device_id: String,
    pub vector_clock: i64,
    pub timestamp: i64,
    pub content_type: Option<String>,
    pub payload: Option<Vec<u8>>,
    pub has_attachment: Option<bool>,
    pub attachment_path: Option<String>,
}

/// What an entry of the event log stands for.
#[verifier::ext_equal]
pub struct EventView {
    pub id: int,
    pub event_type: Seq<char>,
    pub clip_uuid: Seq<char>,
    pub device_id: Seq<char>,
    pub vector_clock: int,
    pub timestamp: int,
    pub content_type: Option<Seq<char>>,
    pub payload: Option<Seq<u8>>,
    pub has_attachment: Option<bool>,
    pub attachment_path: Option<Seq<char>>,
}

impl View for EventRow {
    type V = EventView;

    open spec fn view(&self) -> EventView {
        EventView {
            id: self.id as int,
            event_type: self.event_type@,
            clip_uuid: self.clip_uuid@,
            device_id: self.device_id@,
            vector_clock: self.vector_clock as int,
            timestamp: self.timestamp as int,
            content_type: opt_text(self.content_type),
            payload: opt_bytes(self.payload),
            has_attachment: self.has_attachment,
            attachment_path: opt_text(self.attachment_path),
        }
    }
}

impl EventRow {
    /// A copy of the entry.
    pub fn copy(&self) -> (r: EventRow)
        ensures
            r@ == self@,
    {
        EventRow {
            id: self.id,
            event_type: self.event_type.clone(),
            clip_uuid: self.clip_uuid.clone(),
            device_id: self.device_id.clone(),
            vector_clock: self.vector_clock,
            timestamp: self.timestamp,
            content_type: copy_opt_text(&self.content_type),
            payload: copy_opt_bytes(&self.payload),
            has_attachment: self.has_attachment,
            attachment_path: copy_opt_text(&self.attachment_path),
        }
    }
}

/// How far `peer_id` has followed the events that `author_id` made.
pub struct SyncStateRow {
    pub author_id: String,
    pub peer_id: String,
    pub acknowledged_clock: i64,
}

/// What a row of the acknowledgement table stands for.
#[verifier::ext_equal]
pub struct SyncStateView {
    pub author_id: Seq<char>,
    pub peer_id: Seq<char>,
    pub acknowledged_clock: int,
}

impl View for SyncStateRow {
    type V = SyncStateView;

    open spec fn view(&self) -> SyncStateView {
        SyncStateView {
            author_id: self.author_id@,
            peer_id: self.peer_id@,
            acknowledged_clock: self.acknowledged_clock as int,
        }
    }
}

impl SyncStateRow {
    /// A copy of the row.
    pub fn copy(&self) -> (r: SyncStateRow)
        ensures
            r@ == self@,
    {
        SyncStateRow {
            author_id: self.author_id.clone(),
            peer_id: self.peer_id.clone(),
            acknowledged_clock: self.acknowledged_clock,
        }
    }
}

/// A device that has been seen with the same key.
#[derive(Debug)]
pub struct KnownPeer {
    pub device_id: String,
    pub name: String,
    pub last_seen: i64,
}

/// What a known device stands for.
#[verifier::ext_equal]
pub struct KnownPeerView {
    pub device_id: Seq<char>,
    pub name: Seq<char>,
    pub last_seen: int,
}

impl View for KnownPeer {
    type V = KnownPeerView;

    open spec fn view(&self) -> KnownPeerView {
        KnownPeerView { device_id: self.device_id@, name: self.name@, last_seen: self.last_seen as int }
    }
}

impl KnownPeer {
    /// A copy of the row.
    pub fn copy(&self) -> (r: KnownPeer)
        ensures
            r@ == self@,
    {
        KnownPeer { device_id: self.device_id.clone(), name: self.name.clone(), last_seen: self.last_seen }
    }
}

/// A clip as the user interface shows it.
#[derive(Clone)]
pub struct ClipItem {
    pub id: i64,
    /// "text" or "image"
    pub content_type: String,
    pub content: String,
    pub timestamp: i64,
    pub is_locked: bool,
    pub has_attachment: bool,
    pub attachment_path: Option<String>,
}

/// An event as devices hand it to each other: the entry of the log together
/// with the present state of its clip.
#[derive(Debug, Clone)]
pub struct SyncEvent {
    pub event_type: String,
    pub clip_uuid: String,
    pub device_id: String,
    pub vector_clock: i64,
    pub timestamp: i64,
    pub content_type: Option<String>,
    pub payload: Option<Vec<u8>>,
    pub has_attachment: Option<bool>,
    pub attachment_path: Option<String>,
    pub pinned: Option<bool>,
    pub is_locked: Option<bool>,
}

/// What a handed-over event stands for.
#[verifier::ext_equal]
pub struct SyncEventView {
    pub event_type: Seq<char>,
    pub clip_uuid: Seq<char>,
    pub device_id: Seq<char>,
    pub vector_clock: int,
    pub timestamp: int,
    pub content_type: Option<Seq<char>>,
    pub payload: Option<Seq<u8>>,
    pub has_attachment: Option<bool>,
    pub attachment_path: Option<Seq<char>>,
    pub pinned: Option<bool>,
    pub is_locked: Option<bool>,
}

impl View for SyncEvent {
    type V = SyncEventView;

    open spec fn view(&self) -> SyncEventView {
        SyncEventView {
            event_type: self.event_type@,
            clip_uuid: self.clip_uuid@,
            device_id: self.device_id@,
            vector_clock: self.vector_clock as int,
            timestamp: self.timestamp as int,
            content_type: opt_text(self.content_type),
            payload: opt_bytes(self.payload),
            has_attachment: self.has_attachment,
            attachment_path: opt_text(self.attachment_path),
            pinned: self.pinned,
            is_locked: self.is_locked,
        }
    }
}

impl SyncEvent {
    /// A copy of the event.
    pub fn copy(&self) -> (r: SyncEvent)
        ensures
            r@ == self@,
    {
        SyncEvent {
            event_type: self.event_type.clone(),
            clip_uuid: self.clip_uuid.clone(),
            device_id: self.device_id.clone(),
            vector_clock: self.vector_clock,
            timestamp: self.timestamp,
            content_type: copy_opt_text(&self.content_type),
            payload: copy_opt_bytes(&self.payload),
            has_attachment: self.has_attachment,
            attachment_path: copy_opt_text(&self.attachment_path),
            pinned: self.pinned,
            is_locked: self.is_locked,
        }
    }
}

/// What the clip rows stand for.
pub open spec fn clip_views(v: Seq<ClipRow>) -> Seq<ClipView> {
    v.map_values(|c: ClipRow| c@)
}

/// What the entries of the event log stand for.
pub open spec fn event_views(v: Seq<EventRow>) -> Seq<EventView> {
    v.map_values(|e: EventRow| e@)
}

/// What the acknowledgement rows stand for.
pub open spec fn state_views(v: Seq<SyncStateRow>) -> Seq<SyncStateView> {
    v.map_values(|s: SyncStateRow| s@)
}

/// What the known devices stand for.
pub open spec fn peer_views(v: Seq<KnownPeer>) -> Seq<KnownPeerView> {
    v.map_values(|p: KnownPeer| p@)
}

/// What handed-over events stand for.
pub open spec fn sync_views(v: Seq<SyncEvent>) -> Seq<SyncEventView> {
    v.map_values(|e: SyncEvent| e@)
}

/// Clocks with that of a name set.
pub open spec fn with_clock(clocks: Map<Seq<char>, int>, name: Seq<char>, clock: int) -> Map<Seq<char>, int> {
    clocks.insert(name, clock)
}

/// Clocks by name.
pub struct Clocks {
    entries: Vec<(String, i64)>,
}

impl View for Clocks {
    type V = Map<Seq<char>, int>;

    closed spec fn view(&self) -> Map<Seq<char>, int> {
        Map::new(
            |k: Seq<char>| exists|i: int| 0 <= i < self.entries@.len() && #[trigger] self.entries@[i].0@ == k,
            |k: Seq<char>|
                {
                    let i = choose|i: int| 0 <= i < self.entries@.len() && #[trigger] self.entries@[i].0@ == k;
                    self.entries@[i].1 as int
                },
        )
    }
}

impl Clocks {
    /// No name is listed twice.
    pub closed spec fn wf(&self) -> bool {
        forall|i: int, j: int|
            0 <= i < self.entries@.len() && 0 <= j < self.entries@.len() && #[trigger] self.entries@[i].0@
                == #[trigger] self.entries@[j].0@ ==> i == j
    }

    /// No clocks.
    pub fn new() -> (r: Clocks)
        ensures
            r.wf(),
            r@ == Map::<Seq<char>, int>::empty(),
    {
        let r = Clocks { entries: Vec::new() };
        assert(r@ =~= Map::<Seq<char>, int>::empty());
        r
    }

    /// Sets the clock of a name.
    pub fn insert(&mut self, name: String, clock: i64)
        requires
            old(self).wf(),
        ensures
            final(self).wf(),
            final(self)@ == old(self)@.insert(name@, clock as int),
            final(self)@ == with_clock(old(self)@, name@, clock as int),
    {
        let ghost before = *self;
        let ghost key = name@;
        let mut i: usize = 0;
        while i < self.entries.len()
            invariant
                *self == before,
                before == *old(self),
                before.wf(),
                key == name@,
                i <= self.entries@.len(),
                forall|j: int| 0 <= j < i ==> (#[trigger] self.entries@[j]).0@ != key,
            decreases self.entries@.len() - i,
        {
            if self.entries[i].0 == name {
                self.entries.set(i, (name, clock));
                proof {
                    let now = self.entries@;
                    assert forall|j: int| 0 <= j < now.len() implies #[trigger] now[j].0@ == before.entries@[j].0@ by {}
                    assert forall|k: Seq<char>| #[trigger] self@.dom().contains(k) <==> before@.insert(key, clock as int).dom().contains(k) by {
                        if before@.dom().contains(k) {
                            let j = choose|j: int| 0 <= j < before.entries@.len() && #[trigger] before.entries@[j].0@ == k;
                            assert(now[j].0@ == k);
                        }
                        if self@.dom().contains(k) {
                            let j = choose|j: int| 0 <= j < now.len() && #[trigger] now[j].0@ == k;
                            assert(before.entries@[j].0@ == k);
                        }
                        assert(now[i as int].0@ == key);
                    }
                    assert forall|k: Seq<char>| self@.dom().contains(k) implies #[trigger] self@[k] == before@.insert(key, clock as int)[k] by {
                        let j = choose|j: int| 0 <= j < now.len() && #[trigger] now[j].0@ == k;
                        assert(before.entries@[j].0@ == k);
                        if k == key {
                            assert(now[i as int].0@ == key);
                            assert(j == i);
                        }
                    }
                    assert(self@ =~= before@.insert(key, clock as int));
                }
                return;
            }
            i += 1;
        }
        self.entries.push((name, clock));
        proof {
            let now = self.entries@;
            let n = before.entries@.len() as int;
            assert forall|k: Seq<char>| #[trigger] self@.dom().contains(k) <==> before@.insert(key, clock as int).dom().contains(k) by {
                if before@.dom().contains(k) {
                    let j = choose|j: int| 0 <= j < n && #[trigger] before.entries@[j].0@ == k;
                    assert(now[j].0@ == k);
                }
                if self@.dom().contains(k) {
                    let j = choose|j: int| 0 <= j < now.len() && #[trigger] now[j].0@ == k;
                    if j < n {
                        assert(before.entries@[j].0@ == k);
                    }
                }
                assert(now[n].0@ == key);
            }
            assert forall|k: Seq<char>| self@.dom().contains(k) implies #[trigger] self@[k] == before@.insert(key, clock as int)[k] by {
                let j = choose|j: int| 0 <= j < now.len() && #[trigger] now[j].0@ == k;
                if j < n {
                    assert(before.entries@[j].0@ == k);
                    assert(before@.dom().contains(k));
                }
            }
            assert(self@ =~= before@.insert(key, clock as int));
        }
    }

    /// The clock of a name.
    pub fn get(&self, name: &str) -> (r: Option<i64>)
        requires
            self.wf(),
        ensures
            opt_int(r) == (if self@.dom().contains(name@) { Some(self@[name@]) } else { None }),
    {
        let mut i: usize = 0;
        while i < self.entries.len()
            invariant
                self.wf(),
                i <= self.entries@.len(),
                forall|j: int| 0 <= j < i ==> (#[trigger] self.entries@[j]).0@ != name@,
            decreases self.entries@.len() - i,
        {
            if same(self.entries[i].0.as_str(), name) {
                return Some(self.entries[i].1);
            }
            i += 1;
        }
        None
    }

    /// The names with their clocks, each name once.
    pub fn entries(&self) -> (r: &Vec<(String, i64)>)
        requires
            self.wf(),
        ensures
            forall|i: int| 0 <= i < r@.len() ==> self@.dom().contains((#[trigger] r@[i]).0@) && self@[r@[i].0@] == r@[i].1,
            forall|k: Seq<char>| self@.dom().contains(k) ==> exists|i: int| 0 <= i < r@.len() && (#[trigger] r@[i]).0@ == k,
            forall|i: int, j: int| 0 <= i < j < r@.len() ==> (#[trigger] r@[i]).0@ != (#[trigger] r@[j]).0@,
    {
        proof {
            let v = self.entries@;
            assert forall|i: int| 0 <= i < v.len() implies self@.dom().contains((#[trigger] v[i]).0@) && self@[v[i].0@] == v[i].1 by {
                let k = v[i].0@;
                let j = choose|j: int| 0 <= j < v.len() && #[trigger] v[j].0@ == k;
                assert(v[i].0@ == k);
                assert(i == j);
            }
        }
        &self.entries
    }
}

// ---------------------------------------------------------------------------
// Laws
// ---------------------------------------------------------------------------

/// A clip row stands for its own fields, and its copy has the same.
pub proof fn clip_rows_are_their_fields(c: ClipRow, r: ClipRow)
    requires
        call_ensures(ClipRow::copy, (&c,), r),
    ensures
        r@ == c@,
        c@.id == c.id && r.id == c.id,
        c@.uuid is Some <==> c.uuid is Some,
        c.uuid is Some ==> c@.uuid->0 == c.uuid->0@,
        r.uuid is Some <==> c.uuid is Some,
        c.uuid is Some ==> r.uuid->0@ == c.uuid->0@,
        c@.content_type == c.content_type@ && r.content_type@ == c.content_type@,
        c@.encrypted_payload == c.encrypted_payload@ && r.encrypted_payload@ == c.encrypted_payload@,
        c@.timestamp == c.timestamp && r.timestamp == c.timestamp,
        c@.pinned == c.pinned && r.pinned == c.pinned,
        c@.is_deleted == c.is_deleted && r.is_deleted == c.is_deleted,
        c@.is_locked == c.is_locked && r.is_locked == c.is_locked,
        c@.payload_hash is Some <==> c.payload_hash is Some,
        c.payload_hash is Some ==> c@.payload_hash->0 == c.payload_hash->0@,
        r.payload_hash is Some <==> c.payload_hash is Some,
        c.payload_hash is Some ==> r.payload_hash->0@ == c.payload_hash->0@,
        c@.has_attachment == c.has_attachment && r.has_attachment == c.has_attachment,
        c@.attachment_path is Some <==> c.attachment_path is Some,
        c.attachment_path is Some ==> c@.attachment_path->0 == c.attachment_path->0@,
        r.attachment_path is Some <==> c.attachment_path is Some,
        c.attachment_path is Some ==> r.attachment_path->0@ == c.attachment_path->0@,
{
}

/// An entry of the event log stands for its own fields, and its copy has the
/// same.
pub proof fn event_rows_are_their_fields(c: EventRow, r: EventRow)
    requires
        call_ensures(EventRow::copy, (&c,), r),
    ensures
        r@ == c@,
        c@.id == c.id && r.id == c.id,
        c@.event_type == c.event_type@ && r.event_type@ == c.event_type@,
        c@.clip_uuid == c.clip_uuid@ && r.clip_uuid@ == c.clip_uuid@,
        c@.device_id == c.device_id@ && r.device_id@ == c.device_id@,
        c@.vector_clock == c.vector_clock && r.vector_clock == c.vector_clock,
        c@.timestamp == c.timestamp && r.timestamp == c.timestamp,
        c@.content_type is Some <==> c.content_type is Some,
        c.content_type is Some ==> c@.content_type->0 == c.content_type->0@,
        r.content_type is Some <==> c.content_type is Some,
        c.content_type is Some ==> r.content_type->0@ == c.content_type->0@,
        c@.payload is Some <==> c.payload is Some,
        c.payload is Some ==> c@.payload->0 == c.payload->0@,
        r.payload is Some <==> c.payload is Some,
        c.payload is Some ==> r.payload->0@ == c.payload->0@,
        c@.has_attachment == c.has_attachment && r.has_attachment == c.has_attachment,
        c@.attachment_path is Some <==> c.attachment_path is Some,
        c.attachment_path is Some ==> c@.attachment_path->0 == c.attachment_path->0@,
        r.attachment_path is Some <==> c.attachment_path is Some,
        c.attachment_path is Some ==> r.attachment_path->0@ == c.attachment_path->0@,
{
}

/// A handed-over event stands for its own fields, and its copy has the same.
pub proof fn sync_events_are_their_fields(c: SyncEvent, r: SyncEvent)
    requires
        call_ensures(SyncEvent::copy, (&c,), r),
    ensures
        r@ == c@,
        c@.event_type == c.event_type@ && r.event_type@ == c.event_type@,
        c@.clip_uuid == c.clip_uuid@ && r.clip_uuid@ == c.clip_uuid@,
        c@.device_id == c.device_id@ && r.device_id@ == c.device_id@,
        c@.vector_clock == c.vector_clock && r.vector_clock == c.vector_clock,
        c@.timestamp == c.timestamp && r.timestamp == c.timestamp,
        c@.content_type is Some <==> c.content_type is Some,
        c.content_type is Some ==> c@.content_type->0 == c.content_type->0@,
        r.content_type is Some <==> c.content_type is Some,
        c.content_type is Some ==> r.content_type->0@ == c.content_type->0@,
        c@.payload is Some <==> c.payload is Some,
        c.payload is Some ==> c@.payload->0 == c.payload->0@,
        r.payload is Some <==> c.payload is Some,
        c.payload is Some ==> r.payload->0@ == c.payload->0@,
        c@.has_attachment == c.has_attachment && r.has_attachment == c.has_attachment,
        c@.attachment_path is Some <==> c.attachment_path is Some,
        c.attachment_path is Some ==> c@.attachment_path->0 == c.attachment_path->0@,
        r.attachment_path is Some <==> c.attachment_path is Some,
        c.attachment_path is Some ==> r.attachment_path->0@ == c.attachment_path->0@,
        c@.pinned == c.pinned && r.pinned == c.pinned,
        c@.is_locked == c.is_locked && r.is_locked == c.is_locked,
{
}

/// An acknowledgement stands for its own fields, and its copy has the same.
pub proof fn sync_state_rows_are_their_fields(c: SyncStateRow, r: SyncStateRow)
    requires
        call_ensures(SyncStateRow::copy, (&c,), r),
    ensures
        r@ == c@,
        c@.author_id == c.author_id@ && r.author_id@ == c.author_id@,
        c@.peer_id == c.peer_id@ && r.peer_id@ == c.peer_id@,
        c@.acknowledged_clock == c.acknowledged_clock && r.acknowledged_clock == c.acknowledged_clock,
{
}

/// A known device stands for its own fields, and its copy has the same.
pub proof fn known_peers_are_their_fields(c: KnownPeer, r: KnownPeer)
    requires
        call_ensures(KnownPeer::copy, (&c,), r),
    ensures
        r@ == c@,
        c@.device_id == c.device_id@ && r.device_id@ == c.device_id@,
        c@.name == c.name@ && r.name@ == c.name@,
        c@.last_seen == c.last_seen && r.last_seen == c.last_seen,
{
}

/// Rows stand for what each of them stands for, in their order.
pub proof fn rows_stand_in_their_order(
    clips: Seq<ClipRow>,
    events: Seq<EventRow>,
    told: Seq<SyncEvent>,
    states: Seq<SyncStateRow>,
    peers: Seq<KnownPeer>,
    i: int,
)
    ensures
        clip_views(clips).len() == clips.len(),
        0 <= i < clips.len() ==> clip_views(clips)[i] == clips[i]@,
        event_views(events).len() == events.len(),
        0 <= i < events.len() ==> event_views(events)[i] == events[i]@,
        sync_views(told).len() == told.len(),
        0 <= i < told.len() ==> sync_views(told)[i] == told[i]@,
        state_views(states).len() == states.len(),
        0 <= i < states.len() ==> state_views(states)[i] == states[i]@,
        peer_views(peers).len() == peers.len(),
        0 <= i < peers.len() ==> peer_views(peers)[i] == peers[i]@,
{
}

/// The clock that was set for a name is its clock, and those of other names stay
/// as they were.
pub proof fn clock_that_was_set_is_found(
    before: Map<Seq<char>, int>,
    name: Seq<char>,
    clock: i64,
    after: Clocks,
    asked: &str,
    r: Option<i64>,
)
    requires
        after.wf(),
        after@ == with_clock(before, name, clock as int),
        call_ensures(Clocks::get, (&after, asked), r),
    ensures
        asked@ == name ==> r == Some(clock),
        asked@ != name ==> (r is Some <==> before.dom().contains(asked@)),
        asked@ != name && r is Some ==> r->0 == before[asked@],
{
}

/// There is no clock for any name at first.
pub proof fn no_clock_at_first(new: Clocks, asked: &str, r: Option<i64>)
    requires
        call_ensures(Clocks::new, (), new),
        call_ensures(Clocks::get, (&new, asked), r),
    ensures
        r is None,
{
}

} // verus!
