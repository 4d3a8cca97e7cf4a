//! What the history store holds, and what each operation makes of it.
use crate::tables::{ClipView, EventView, KnownPeerView, SyncEventView, SyncStateView};
use crate::text;
use vstd::prelude::*;

verus! {

/// Why an operation on the store failed.
#[derive(Debug, Clone, Copy, PartialEq, Eq, Structural)]
pub enum DbError {
    /// No row number is left to give out.
    Full,
    /// The uuid belongs to another clip.
    UuidTaken,
    /// A clip was to lose its payload, which every clip must have.
    PayloadRequired,
    /// There is no clip with that number.
    NoSuchClip,
    /// The clip has no uuid.
    MissingUuid,
    /// The clock of the machine is set to before 1970.
    ClockBeforeEpoch,
    /// The machine gave no random bytes.
    NoRandomness,
}

/// The largest row number.
pub open spec fn max_row() -> int {
    i64::MAX as int
}

/// An event stamped more than this many microseconds ahead is not taken over.
pub const MAX_FUTURE: i64 = 3_600_000_000;

/// A deleted clip whose stamp lies this far back is dropped at the next
/// insertion.
pub const DELETED_AGE: i64 = 604_800;

/// The history keeps this many clips where the setting is not positive.
pub const DEFAULT_LIMIT: i64 = 100;

/// At most this many clips are shown.
pub const SHOWN_CLIPS: usize = 100;

/// The larger of two numbers.
pub open spec fn larger(a: int, b: int) -> int {
    if a >= b {
        a
    } else {
        b
    }
}

/// The largest clock of a log; zero for an empty one.
pub open spec fn max_clock(events: Seq<EventView>) -> int
    decreases events.len(),
{
    if events.len() == 0 {
        0
    } else if events.len() == 1 {
        events[0].vector_clock
    } else {
        larger(max_clock(events.drop_last()), events.last().vector_clock)
    }
}

/// The smallest acknowledged clock; zero where there is none.
pub open spec fn min_acknowledged(states: Seq<SyncStateView>) -> int
    decreases states.len(),
{
    if states.len() == 0 {
        0
    } else if states.len() == 1 {
        states[0].acknowledged_clock
    } else {
        let front = min_acknowledged(states.drop_last());
        if states.last().acknowledged_clock < front {
            states.last().acknowledged_clock
        } else {
            front
        }
    }
}

/// The clock of the next event: never behind the machine's clock, and past
/// every clock in the log.
pub open spec fn next_hlc(events: Seq<EventView>, physical: int) -> int {
    larger(physical, max_clock(events) + 1)
}

/// The clock that a list of clocks has for a device; zero where it has none.
pub open spec fn clock_for(clocks: Map<Seq<char>, int>, device_id: Seq<char>) -> int {
    if clocks.dom().contains(device_id) {
        clocks[device_id]
    } else {
        0
    }
}

/// Where the clip with a number stands.
pub open spec fn clip_at(clips: Seq<ClipView>, id: int) -> Option<int> {
    if exists|i: int| 0 <= i < clips.len() && (#[trigger] clips[i]).id == id {
        Some(choose|i: int| 0 <= i < clips.len() && (#[trigger] clips[i]).id == id)
    } else {
        None
    }
}

/// Where the clip with a uuid stands.
pub open spec fn uuid_at(clips: Seq<ClipView>, uuid: Seq<char>) -> Option<int> {
    if exists|i: int| 0 <= i < clips.len() && (#[trigger] clips[i]).uuid == Some(uuid) {
        Some(choose|i: int| 0 <= i < clips.len() && (#[trigger] clips[i]).uuid == Some(uuid))
    } else {
        None
    }
}

/// Where the acknowledgement of a peer for an author stands.
pub open spec fn state_at(states: Seq<SyncStateView>, author: Seq<char>, peer: Seq<char>) -> Option<int> {
    if exists|i: int| 0 <= i < states.len() && (#[trigger] states[i]).author_id == author && states[i].peer_id == peer {
        Some(
            choose|i: int|
                0 <= i < states.len() && (#[trigger] states[i]).author_id == author && states[i].peer_id == peer,
        )
    } else {
        None
    }
}

/// Where a known device stands.
pub open spec fn peer_at(peers: Seq<KnownPeerView>, device_id: Seq<char>) -> Option<int> {
    if exists|i: int| 0 <= i < peers.len() && (#[trigger] peers[i]).device_id == device_id {
        Some(choose|i: int| 0 <= i < peers.len() && (#[trigger] peers[i]).device_id == device_id)
    } else {
        None
    }
}

/// Whether a log holds the event of that clip, device and clock.
pub open spec fn logs(events: Seq<EventView>, clip_uuid: Seq<char>, device_id: Seq<char>, clock: int) -> bool {
    exists|i: int|
        0 <= i < events.len() && (#[trigger] events[i]).clip_uuid == clip_uuid && events[i].device_id == device_id
            && events[i].vector_clock == clock
}

/// A log in which, of the events with one clip, device and clock, only the
/// first is kept.
pub open spec fn deduplicated(events: Seq<EventView>) -> Seq<EventView>
    decreases events.len(),
{
    if events.len() == 0 {
        events
    } else {
        let front = deduplicated(events.drop_last());
        let e = events.last();
        if logs(front, e.clip_uuid, e.device_id, e.vector_clock) {
            front
        } else {
            front.push(e)
        }
    }
}

/// The first of two optional values that is there.
pub open spec fn coalesce<T>(a: Option<T>, b: Option<T>) -> Option<T> {
    match a {
        Some(x) => Some(x),
        None => b,
    }
}

/// An entry of the log as it is handed to other devices: what the entry does
/// not hold is taken from the clip, and an event of a deleted clip becomes its
/// deletion.
pub open spec fn handed_over(e: EventView, clips: Seq<ClipView>) -> SyncEventView {
    match uuid_at(clips, e.clip_uuid) {
        Some(i) => {
            let c = clips[i];
            let gone = c.is_deleted && e.event_type != "DELETE"@;
            SyncEventView {
                event_type: if gone {
                    "DELETE"@
                } else {
                    e.event_type
                },
                clip_uuid: e.clip_uuid,
                device_id: e.device_id,
                vector_clock: e.vector_clock,
                timestamp: e.timestamp,
                content_type: coalesce(e.content_type, Some(c.content_type)),
                payload: if gone {
                    None
                } else {
                    coalesce(e.payload, Some(c.encrypted_payload))
                },
                has_attachment: coalesce(e.has_attachment, Some(c.has_attachment)),
                attachment_path: coalesce(e.attachment_path, c.attachment_path),
                pinned: Some(c.pinned),
                is_locked: Some(c.is_locked),
            }
        },
        None => SyncEventView {
            event_type: e.event_type,
            clip_uuid: e.clip_uuid,
            device_id: e.device_id,
            vector_clock: e.vector_clock,
            timestamp: e.timestamp,
            content_type: e.content_type,
            payload: e.payload,
            has_attachment: coalesce(e.has_attachment, Some(false)),
            attachment_path: e.attachment_path,
            pinned: None,
            is_locked: None,
        },
    }
}

/// Entries of the log as they are handed to other devices.
pub open spec fn all_handed_over(events: Seq<EventView>, clips: Seq<ClipView>) -> Seq<SyncEventView> {
    events.map_values(|e: EventView| handed_over(e, clips))
}

/// The clips that are not deleted.
pub open spec fn live_clips(clips: Seq<ClipView>) -> Seq<ClipView> {
    clips.filter(|c: ClipView| !c.is_deleted)
}

/// The clips in the recycle bin.
pub open spec fn deleted_clips(clips: Seq<ClipView>) -> Seq<ClipView> {
    clips.filter(|c: ClipView| c.is_deleted)
}

/// The clips that count against the limit of the history.
pub open spec fn loose_clips(clips: Seq<ClipView>) -> Seq<ClipView> {
    clips.filter(|c: ClipView| !c.pinned && !c.is_locked && !c.is_deleted)
}

/// How many clips the history keeps under a setting.
pub open spec fn actual_limit(limit: int) -> int {
    if limit <= 0 {
        DEFAULT_LIMIT as int
    } else {
        limit
    }
}

/// Clips changed where they are selected.
pub open spec fn changed(
    clips: Seq<ClipView>,
    selected: spec_fn(ClipView) -> bool,
    change: spec_fn(ClipView) -> ClipView,
) -> Seq<ClipView> {
    clips.map_values(
        |c: ClipView|
            if selected(c) {
                change(c)
            } else {
                c
            },
    )
}

/// The first entries of a list, as many as there are up to a limit.
pub open spec fn up_to<T>(s: Seq<T>, limit: int) -> Seq<T> {
    if limit <= 0 {
        Seq::empty()
    } else if s.len() <= limit {
        s
    } else {
        s.take(limit)
    }
}

/// The last entries of a list, as many as there are up to a limit; a negative
/// limit is none.
pub open spec fn last_up_to<T>(s: Seq<T>, limit: int) -> Seq<T> {
    if limit < 0 || s.len() <= limit {
        s
    } else {
        s.skip(s.len() - limit)
    }
}

/// Events in the order of their clocks.
pub open spec fn by_clock(events: Seq<EventView>) -> bool {
    forall|i: int, j: int|
        0 <= i < j < events.len() ==> (#[trigger] events[i]).vector_clock <= (#[trigger] events[j]).vector_clock
}

/// An event put after those with clocks up to its own, and before those with
/// later ones, keeps the order.
pub proof fn insertion_keeps_clock_order(events: Seq<EventView>, j: int, e: EventView)
    requires
        by_clock(events),
        0 <= j <= events.len(),
        j > 0 ==> events[j - 1].vector_clock <= e.vector_clock,
        j < events.len() ==> e.vector_clock <= events[j].vector_clock,
    ensures
        by_clock(events.insert(j, e)),
{
    let r = events.insert(j, e);
    assert forall|a: int, b: int| 0 <= a < b < r.len() implies (#[trigger] r[a]).vector_clock <= (
    #[trigger] r[b]).vector_clock by {
        if a < j {
            assert(r[a] == events[a]);
            assert(events[a].vector_clock <= events[j - 1].vector_clock);
        } else if a > j {
            assert(r[a] == events[a - 1]);
        }
        if b > j {
            assert(r[b] == events[b - 1]);
            assert(events[j].vector_clock <= events[b - 1].vector_clock);
        } else if b < j {
            assert(r[b] == events[b]);
        }
    }
}

/// Known devices, those seen last first.
pub open spec fn by_last_seen(peers: Seq<KnownPeerView>) -> bool {
    forall|i: int, j: int|
        0 <= i < j < peers.len() ==> (#[trigger] peers[i]).last_seen >= (#[trigger] peers[j]).last_seen
}

/// A device put after those seen no earlier, and before those seen no later,
/// keeps the order.
pub proof fn insertion_keeps_seen_order(peers: Seq<KnownPeerView>, j: int, p: KnownPeerView)
    requires
        by_last_seen(peers),
        0 <= j <= peers.len(),
        j > 0 ==> peers[j - 1].last_seen >= p.last_seen,
        j < peers.len() ==> p.last_seen >= peers[j].last_seen,
    ensures
        by_last_seen(peers.insert(j, p)),
{
    let r = peers.insert(j, p);
    assert forall|a: int, b: int| 0 <= a < b < r.len() implies (#[trigger] r[a]).last_seen >= (
    #[trigger] r[b]).last_seen by {
        if a < j {
            assert(r[a] == peers[a]);
            assert(peers[a].last_seen >= peers[j - 1].last_seen);
        } else if a > j {
            assert(r[a] == peers[a - 1]);
        }
        if b > j {
            assert(r[b] == peers[b - 1]);
            assert(peers[j].last_seen >= peers[b - 1].last_seen);
        } else if b < j {
            assert(r[b] == peers[b]);
        }
    }
}

/// What the history store holds: its clips, event log, acknowledgements and
/// known devices, and the last row numbers it has given out.
#[verifier::ext_equal]
pub struct DbView {
    pub device_id: Seq<char>,
    pub clips: Seq<ClipView>,
    pub clip_seq: int,
    pub events: Seq<EventView>,
    pub event_seq: int,
    pub states: Seq<SyncStateView>,
    pub peers: Seq<KnownPeerView>,
}

/// Clips stand in the order of their numbers, and no uuid occurs twice.
pub open spec fn clips_wf(clips: Seq<ClipView>, clip_seq: int) -> bool {
    &&& 0 <= clip_seq <= max_row()
    &&& forall|i: int, j: int| 0 <= i < j < clips.len() ==> (#[trigger] clips[i]).id < (#[trigger] clips[j]).id
    &&& forall|i: int| 0 <= i < clips.len() ==> (#[trigger] clips[i]).id <= clip_seq
    &&& forall|i: int, j: int|
        0 <= i < j < clips.len() && (#[trigger] clips[i]).uuid is Some ==> clips[i].uuid != (#[trigger] clips[j]).uuid
}

/// Events stand in the order of their numbers.
pub open spec fn events_ordered(events: Seq<EventView>, event_seq: int) -> bool {
    &&& 0 <= event_seq <= max_row()
    &&& forall|i: int, j: int| 0 <= i < j < events.len() ==> (#[trigger] events[i]).id < (#[trigger] events[j]).id
    &&& forall|i: int| 0 <= i < events.len() ==> (#[trigger] events[i]).id <= event_seq
}

/// Whether two events have the same clip, device and clock.
pub open spec fn same_event(a: EventView, b: EventView) -> bool {
    a.clip_uuid == b.clip_uuid && a.device_id == b.device_id && a.vector_clock == b.vector_clock
}

/// No two events have the same clip, device and clock.
pub open spec fn events_unique(events: Seq<EventView>) -> bool {
    forall|i: int, j: int| 0 <= i < j < events.len() ==> !same_event(#[trigger] events[i], #[trigger] events[j])
}

/// No author and peer have two acknowledgements.
pub open spec fn states_unique(states: Seq<SyncStateView>) -> bool {
    forall|i: int, j: int|
        0 <= i < j < states.len() ==> (#[trigger] states[i]).author_id != (#[trigger] states[j]).author_id
            || states[i].peer_id != states[j].peer_id
}

/// No device is known twice.
pub open spec fn peers_unique(peers: Seq<KnownPeerView>) -> bool {
    forall|i: int, j: int|
        0 <= i < j < peers.len() ==> (#[trigger] peers[i]).device_id != (#[trigger] peers[j]).device_id
}

impl DbView {
    /// What holds of every store.
    pub open spec fn wf(self) -> bool {
        &&& clips_wf(self.clips, self.clip_seq)
        &&& events_ordered(self.events, self.event_seq)
        &&& events_unique(self.events)
        &&& states_unique(self.states)
        &&& peers_unique(self.peers)
    }

    /// Whether a clock past all those in the log can still be written down.
    pub open spec fn clock_left(self) -> bool {
        max_clock(self.events) < i64::MAX
    }

    /// The store with other clips.
    pub open spec fn with_clips(self, clips: Seq<ClipView>) -> DbView {
        DbView { clips, ..self }
    }

    /// The store with an event appended to the log.
    pub open spec fn logged(
        self,
        event_type: Seq<char>,
        clip_uuid: Seq<char>,
        device_id: Seq<char>,
        vector_clock: int,
        timestamp: int,
        content_type: Option<Seq<char>>,
        payload: Option<Seq<u8>>,
        has_attachment: Option<bool>,
        attachment_path: Option<Seq<char>>,
    ) -> DbView {
        DbView {
            events: self.events.push(
                EventView {
                    id: self.event_seq + 1,
                    event_type,
                    clip_uuid,
                    device_id,
                    vector_clock,
                    timestamp,
                    content_type,
                    payload,
                    has_attachment,
                    attachment_path,
                },
            ),
            event_seq: self.event_seq + 1,
            ..self
        }
    }

    /// The store after an event of this device that carries no content. Where
    /// no row number is left nothing is written.
    pub open spec fn noted(
        self,
        event_type: Seq<char>,
        clip_uuid: Seq<char>,
        vector_clock: int,
        timestamp: int,
        has_attachment: bool,
        attachment_path: Option<Seq<char>>,
    ) -> DbView {
        if self.event_seq == max_row() {
            self
        } else {
            self.logged(
                event_type,
                clip_uuid,
                self.device_id,
                vector_clock,
                timestamp,
                None,
                None,
                Some(has_attachment),
                attachment_path,
            )
        }
    }

    /// The uuid of the clip with a number: nothing where there is no such clip,
    /// an error where it has none.
    pub open spec fn uuid_by_id(self, id: int) -> Result<Option<Seq<char>>, DbError> {
        match clip_at(self.clips, id) {
            Some(i) => match self.clips[i].uuid {
                Some(u) => Ok(Some(u)),
                None => Err(DbError::MissingUuid),
            },
            None => Ok(None),
        }
    }

    /// A new clip at the end of the history.
    pub open spec fn appended(
        self,
        uuid: Seq<char>,
        content_type: Seq<char>,
        encrypted_payload: Seq<u8>,
        timestamp: int,
        pinned: bool,
        is_locked: bool,
        is_deleted: bool,
        payload_hash: Option<Seq<char>>,
        has_attachment: bool,
        attachment_path: Option<Seq<char>>,
    ) -> DbView {
        DbView {
            clips: self.clips.push(
                ClipView {
                    id: self.clip_seq + 1,
                    uuid: Some(uuid),
                    content_type,
                    encrypted_payload,
                    timestamp,
                    pinned,
                    is_deleted,
                    is_locked,
                    payload_hash,
                    has_attachment,
                    attachment_path,
                },
            ),
            clip_seq: self.clip_seq + 1,
            ..self
        }
    }

    /// A clip of this device enters the history.
    ///
    /// The clip and its event are written first; the number given back is that
    /// of the event. If the history is then over its limit the oldest clips
    /// would have to lose their payload, which no clip may: the insertion ends
    /// in an error and what was written stays. Otherwise deleted clips of some
    /// age are dropped.
    pub open spec fn insert_clip(
        self,
        content_type: Seq<char>,
        encrypted_payload: Seq<u8>,
        limit: int,
        has_attachment: bool,
        attachment_path: Option<Seq<char>>,
        payload_hash: Seq<char>,
        uuid: Seq<char>,
        timestamp: int,
        physical: int,
    ) -> (DbView, Result<int, DbError>) {
        if self.clip_seq == max_row() {
            (self, Err(DbError::Full))
        } else if uuid_at(self.clips, uuid) is Some {
            (self, Err(DbError::UuidTaken))
        } else {
            let a = self.appended(
                uuid,
                content_type,
                encrypted_payload,
                timestamp,
                false,
                false,
                false,
                Some(payload_hash),
                has_attachment,
                attachment_path,
            );
            if a.event_seq == max_row() {
                (a, Err(DbError::Full))
            } else {
                let b = a.logged(
                    "INSERT"@,
                    uuid,
                    a.device_id,
                    next_hlc(a.events, physical),
                    timestamp,
                    Some(content_type),
                    Some(encrypted_payload),
                    Some(has_attachment),
                    attachment_path,
                );
                if loose_clips(b.clips).len() > actual_limit(limit) {
                    (b, Err(DbError::PayloadRequired))
                } else {
                    (
                        b.with_clips(
                            b.clips.filter(|c: ClipView| !(c.is_deleted && c.timestamp < timestamp - DELETED_AGE)),
                        ),
                        Ok(b.event_seq),
                    )
                }
            }
        }
    }

    /// A clip is pinned or unpinned, and other devices are told.
    pub open spec fn toggle_pin(
        self,
        id: int,
        pinned: bool,
        timestamp: int,
        physical: int,
    ) -> (DbView, Result<(), DbError>) {
        match clip_at(self.clips, id) {
            None => (self, Err(DbError::NoSuchClip)),
            Some(i) => match self.clips[i].uuid {
                None => (self, Err(DbError::MissingUuid)),
                Some(uuid) => {
                    let a = self.with_clips(
                        changed(self.clips, |c: ClipView| c.id == id, |c: ClipView| ClipView { pinned, ..c }),
                    );
                    if a.event_seq == max_row() {
                        (a, Err(DbError::Full))
                    } else {
                        (
                            a.noted(
                                if pinned {
                                    "PIN"@
                                } else {
                                    "UNPIN"@
                                },
                                uuid,
                                next_hlc(a.events, physical),
                                timestamp,
                                self.clips[i].has_attachment,
                                self.clips[i].attachment_path,
                            ),
                            Ok(()),
                        )
                    }
                },
            },
        }
    }

    /// A clip is locked or unlocked. Only the locking is told to other devices.
    pub open spec fn toggle_lock(
        self,
        id: int,
        is_locked: bool,
        timestamp: int,
        physical: int,
    ) -> (DbView, Result<(), DbError>) {
        let a = self.with_clips(
            changed(self.clips, |c: ClipView| c.id == id, |c: ClipView| ClipView { is_locked, ..c }),
        );
        if is_locked {
            match self.uuid_by_id(id) {
                Err(e) => (a, Err(e)),
                Ok(None) => (a, Ok(())),
                Ok(Some(uuid)) => (
                    a.noted("LOCK"@, uuid, next_hlc(a.events, physical), timestamp, false, None),
                    Ok(()),
                ),
            }
        } else {
            (a, Ok(()))
        }
    }

    /// A clip goes to the recycle bin and loses its pin; other devices are
    /// told.
    pub open spec fn delete_clip(self, id: int, timestamp: int, physical: int) -> (DbView, Result<(), DbError>) {
        let a = self.with_clips(
            changed(
                self.clips,
                |c: ClipView| c.id == id,
                |c: ClipView| ClipView { is_deleted: true, pinned: false, ..c },
            ),
        );
        match self.uuid_by_id(id) {
            Err(e) => (a, Err(e)),
            Ok(None) => (a, Ok(())),
            Ok(Some(uuid)) => (
                a.noted("DELETE"@, uuid, next_hlc(a.events, physical), timestamp, false, None),
                Ok(()),
            ),
        }
    }

    /// A clip leaves the recycle bin.
    pub open spec fn restore_clip(self, id: int) -> DbView {
        self.with_clips(
            changed(self.clips, |c: ClipView| c.id == id, |c: ClipView| ClipView { is_deleted: false, ..c }),
        )
    }

    /// The clips with a digest are locked or unlocked.
    pub open spec fn locked_by_hash(self, hash: Seq<char>, is_locked: bool) -> DbView {
        self.with_clips(
            changed(
                self.clips,
                |c: ClipView| c.payload_hash == Some(hash),
                |c: ClipView| ClipView { is_locked, ..c },
            ),
        )
    }

    /// The clips with a digest are pinned or unpinned.
    pub open spec fn pinned_by_hash(self, hash: Seq<char>, pinned: bool) -> DbView {
        self.with_clips(
            changed(self.clips, |c: ClipView| c.payload_hash == Some(hash), |c: ClipView| ClipView { pinned, ..c }),
        )
    }

    /// The clips with a digest go to the recycle bin.
    pub open spec fn deleted_by_hash(self, hash: Seq<char>) -> DbView {
        self.with_clips(
            changed(
                self.clips,
                |c: ClipView| c.payload_hash == Some(hash),
                |c: ClipView| ClipView { is_deleted: true, ..c },
            ),
        )
    }

    /// Every clip is unlocked.
    pub open spec fn unlocked(self) -> DbView {
        self.with_clips(self.clips.map_values(|c: ClipView| ClipView { is_locked: false, ..c }))
    }

    /// The clips in the recycle bin leave the store.
    pub open spec fn bin_emptied(self) -> DbView {
        self.with_clips(live_clips(self.clips))
    }

    /// All other devices are forgotten.
    pub open spec fn without_peers(self) -> DbView {
        DbView { states: Seq::empty(), peers: Seq::empty(), ..self }
    }

    /// A peer has followed this device up to a clock.
    pub open spec fn followed_by(self, peer_id: Seq<char>, clock: int) -> DbView {
        self.with_state(self.device_id, peer_id, clock)
    }

    /// A clip leaves the store; other devices are told that it is deleted.
    pub open spec fn permanently_delete_clip(
        self,
        id: int,
        timestamp: int,
        physical: int,
    ) -> (DbView, Result<(), DbError>) {
        match self.uuid_by_id(id) {
            Err(e) => (self, Err(e)),
            Ok(found) => {
                let a = match found {
                    Some(uuid) => self.noted(
                        "DELETE"@,
                        uuid,
                        next_hlc(self.events, physical),
                        timestamp,
                        false,
                        None,
                    ),
                    None => self,
                };
                (a.with_clips(a.clips.filter(|c: ClipView| c.id != id)), Ok(()))
            },
        }
    }

    /// The store after a deletion event for each of some clips, all with one
    /// clock.
    pub open spec fn deletions_noted(self, uuids: Seq<Seq<char>>, vector_clock: int, timestamp: int) -> DbView
        decreases uuids.len(),
    {
        if uuids.len() == 0 {
            self
        } else {
            self.deletions_noted(uuids.drop_last(), vector_clock, timestamp).noted(
                "DELETE"@,
                uuids.last(),
                vector_clock,
                timestamp,
                false,
                None,
            )
        }
    }

    /// The clips that clearing the history reaches.
    pub open spec fn clearable(self, delete_locked: bool) -> Seq<ClipView> {
        self.clips.filter(|c: ClipView| delete_locked || !c.is_locked)
    }

    /// The history goes to the recycle bin, locked clips only where asked;
    /// other devices are told of each.
    pub open spec fn clear_all(
        self,
        delete_locked: bool,
        timestamp: int,
        physical: int,
    ) -> (DbView, Result<(), DbError>) {
        let reached = self.clearable(delete_locked);
        if exists|i: int| 0 <= i < reached.len() && (#[trigger] reached[i]).uuid is None {
            (self, Err(DbError::MissingUuid))
        } else {
            let a = self.with_clips(
                changed(
                    self.clips,
                    |c: ClipView| delete_locked || !c.is_locked,
                    |c: ClipView| ClipView { is_deleted: true, ..c },
                ),
            );
            (
                a.deletions_noted(
                    reached.map_values(|c: ClipView| c.uuid->0),
                    next_hlc(self.events, physical),
                    timestamp,
                ),
                Ok(()),
            )
        }
    }

    /// How far this device has followed an author.
    pub open spec fn acknowledged(self, author: Seq<char>) -> int {
        match state_at(self.states, author, self.device_id) {
            Some(i) => self.states[i].acknowledged_clock,
            None => 0,
        }
    }

    /// The store with an acknowledgement set.
    pub open spec fn with_state(self, author_id: Seq<char>, peer_id: Seq<char>, acknowledged_clock: int) -> DbView {
        let row = SyncStateView { author_id, peer_id, acknowledged_clock };
        match state_at(self.states, author_id, peer_id) {
            Some(i) => DbView { states: self.states.update(i, row), ..self },
            None => DbView { states: self.states.push(row), ..self },
        }
    }

    /// The store after this device has followed an author up to a clock. An
    /// acknowledgement never goes back.
    pub open spec fn acknowledging(self, author: Seq<char>, clock: int) -> DbView {
        let upto = match state_at(self.states, author, self.device_id) {
            Some(i) => larger(self.states[i].acknowledged_clock, clock),
            None => clock,
        };
        self.with_state(author, self.device_id, upto)
    }

    /// The store with a known device set.
    pub open spec fn with_peer(self, device_id: Seq<char>, name: Seq<char>, last_seen: int) -> DbView {
        let row = KnownPeerView { device_id, name, last_seen };
        match peer_at(self.peers, device_id) {
            Some(i) => DbView { peers: self.peers.update(i, row), ..self },
            None => DbView { peers: self.peers.push(row), ..self },
        }
    }

    /// Whether an event is later than everything the log holds of its clip:
    /// by its stamp, and by its device where the stamps are equal.
    pub open spec fn is_latest(self, evt: SyncEventView) -> bool {
        forall|i: int|
            0 <= i < self.events.len() && (#[trigger] self.events[i]).clip_uuid == evt.clip_uuid ==> {
                ||| self.events[i].timestamp < evt.timestamp
                ||| self.events[i].timestamp == evt.timestamp && text::text_lt(self.events[i].device_id, evt.device_id)
            }
    }

    /// A clip of another device enters the history, or replaces what is there
    /// under its uuid. A clip in the recycle bin stays there. Without a payload
    /// the one that is there is kept.
    pub open spec fn upserted(self, evt: SyncEventView, content_type: Seq<char>, payload: Option<Seq<u8>>) -> DbView {
        let pinned = evt.pinned == Some(true);
        let is_locked = evt.is_locked == Some(true);
        let has_attachment = evt.has_attachment == Some(true);
        match uuid_at(self.clips, evt.clip_uuid) {
            Some(i) => DbView {
                clips: self.clips.update(
                    i,
                    ClipView {
                        content_type,
                        encrypted_payload: match payload {
                            Some(p) => p,
                            None => self.clips[i].encrypted_payload,
                        },
                        timestamp: evt.timestamp,
                        pinned,
                        is_locked,
                        has_attachment,
                        attachment_path: evt.attachment_path,
                        ..self.clips[i]
                    },
                ),
                clip_seq: self.clip_seq + 1,
                ..self
            },
            None => self.appended(
                evt.clip_uuid,
                content_type,
                match payload {
                    Some(p) => p,
                    None => Seq::empty(),
                },
                evt.timestamp,
                pinned,
                is_locked,
                false,
                None,
                has_attachment,
                evt.attachment_path,
            ),
        }
    }

    /// A clip goes to the recycle bin; a clip that is not there yet enters the
    /// store as deleted. Where no row number is left nothing happens.
    pub open spec fn buried(self, uuid: Seq<char>, timestamp: int) -> DbView {
        if self.clip_seq == max_row() {
            self
        } else {
            match uuid_at(self.clips, uuid) {
                Some(i) => DbView {
                    clips: self.clips.update(i, ClipView { is_deleted: true, ..self.clips[i] }),
                    clip_seq: self.clip_seq + 1,
                    ..self
                },
                None => self.appended(
                    uuid,
                    "text"@,
                    Seq::empty(),
                    timestamp,
                    false,
                    false,
                    true,
                    None,
                    false,
                    None,
                ),
            }
        }
    }

    /// What an event does to the clips of the store.
    pub open spec fn carried_out(self, evt: SyncEventView) -> (DbView, Result<(), DbError>) {
        let of_clip = |c: ClipView| c.uuid == Some(evt.clip_uuid);
        if evt.event_type == "INSERT"@ || evt.event_type == "UPDATE"@ {
            match evt.content_type {
                Some(ctype) if evt.payload is Some || evt.has_attachment == Some(true) => {
                    if self.clip_seq == max_row() {
                        (self, Err(DbError::Full))
                    } else {
                        (self.upserted(evt, ctype, evt.payload), Ok(()))
                    }
                },
                _ => (self, Ok(())),
            }
        } else if evt.event_type == "DELETE"@ {
            (self.buried(evt.clip_uuid, evt.timestamp), Ok(()))
        } else if evt.event_type == "LOCK"@ {
            (
                self.with_clips(changed(self.clips, of_clip, |c: ClipView| ClipView { is_locked: true, ..c })),
                Ok(()),
            )
        } else if evt.event_type == "PIN"@ {
            (
                self.with_clips(changed(self.clips, of_clip, |c: ClipView| ClipView { pinned: true, ..c })),
                Ok(()),
            )
        } else if evt.event_type == "UNPIN"@ {
            (
                self.with_clips(changed(self.clips, of_clip, |c: ClipView| ClipView { pinned: false, ..c })),
                Ok(()),
            )
        } else {
            (self, Ok(()))
        }
    }

    /// The store after an event of another device is written to the log, unless
    /// the log holds it already. Where no row number is left nothing is
    /// written.
    pub open spec fn recorded(self, evt: SyncEventView) -> DbView {
        if self.event_seq == max_row() {
            self
        } else if logs(self.events, evt.clip_uuid, evt.device_id, evt.vector_clock) {
            DbView { event_seq: self.event_seq + 1, ..self }
        } else {
            self.logged(
                evt.event_type,
                evt.clip_uuid,
                evt.device_id,
                evt.vector_clock,
                evt.timestamp,
                evt.content_type,
                evt.payload,
                Some(evt.has_attachment == Some(true)),
                evt.attachment_path,
            )
        }
    }

    /// Whether an event is passed over: it is stamped too far ahead, or this
    /// device has already followed its author past it.
    pub open spec fn passes_over(self, evt: SyncEventView, now: int) -> bool {
        evt.timestamp > now + MAX_FUTURE || evt.vector_clock <= self.acknowledged(evt.device_id)
    }

    /// One event of another device is taken over.
    pub open spec fn apply_event(self, evt: SyncEventView, now: int) -> (DbView, Result<(), DbError>) {
        if self.passes_over(evt, now) {
            (self, Ok(()))
        } else {
            let (a, r) = if self.is_latest(evt) {
                self.carried_out(evt)
            } else {
                (self, Ok(()))
            };
            match r {
                Err(e) => (a, Err(e)),
                Ok(_) => (a.recorded(evt).acknowledging(evt.device_id, evt.vector_clock), Ok(())),
            }
        }
    }

    /// Events of another device are taken over one after the other, up to the
    /// first that fails.
    pub open spec fn apply_sync_events(
        self,
        evts: Seq<SyncEventView>,
        now: int,
    ) -> (DbView, Result<(), DbError>)
        decreases evts.len(),
    {
        if evts.len() == 0 {
            (self, Ok(()))
        } else {
            let (a, r) = self.apply_sync_events(evts.drop_last(), now);
            match r {
                Err(e) => (a, Err(e)),
                Ok(_) => a.apply_event(evts.last(), now),
            }
        }
    }

    /// The events that a device with those clocks does not have yet, in the
    /// order of the log. The limit counts, but one event is always handed out.
    pub open spec fn missing_events(self, clocks: Map<Seq<char>, int>, limit: int) -> Seq<SyncEventView> {
        all_handed_over(
            up_to(
                self.events.filter(|e: EventView| e.vector_clock > clock_for(clocks, e.device_id)),
                larger(limit, 1),
            ),
            self.clips,
        )
    }

    /// The last events of this device, in the order of the log.
    pub open spec fn recent_events(self, limit: int) -> Seq<SyncEventView> {
        all_handed_over(
            last_up_to(self.events.filter(|e: EventView| e.device_id == self.device_id), limit),
            self.clips,
        )
    }

    /// The largest clock among the events of this device.
    pub open spec fn latest_hlc(self) -> int {
        max_clock(self.events.filter(|e: EventView| e.device_id == self.device_id))
    }

    /// The log without the events of this device that every peer has followed.
    pub open spec fn pruned(self) -> DbView {
        if self.states.len() == 0 {
            self
        } else {
            let upto = min_acknowledged(self.states.filter(|s: SyncStateView| s.author_id == self.device_id));
            DbView {
                events: self.events.filter(
                    |e: EventView| !(e.vector_clock <= upto && e.device_id == self.device_id),
                ),
                ..self
            }
        }
    }

    /// The clocks that this device has acknowledged, by author.
    pub open spec fn sync_states(self) -> Map<Seq<char>, int> {
        Map::new(
            |author: Seq<char>| state_at(self.states, author, self.device_id) is Some,
            |author: Seq<char>| self.acknowledged(author),
        )
    }

    /// The store without a device: neither known nor acknowledging.
    pub open spec fn without_peer(self, peer_id: Seq<char>) -> DbView {
        DbView {
            states: self.states.filter(|s: SyncStateView| s.peer_id != peer_id),
            peers: self.peers.filter(|p: KnownPeerView| p.device_id != peer_id),
            ..self
        }
    }
}

} // verus!
