//! What is read of the store, how it is loaded and how it is saved, row by row.
use crate::db::saving;
use crate::db::saving::Changes;
use crate::db::Database;
use crate::laws::changes::{clip_found, is_next_clock, next_clock_is_smallest};
use crate::model;
use crate::model::{DbError, DbView};
use crate::seqs;
use crate::tables;
use crate::tables::{ClipRow, Clocks, EventRow, EventView, KnownPeer, KnownPeerView, SyncStateRow};
use vstd::prelude::*;

verus! {

broadcast use vstd::seq_lib::group_seq_properties;

// ---------------------------------------------------------------------------
// Reading
// ---------------------------------------------------------------------------

/// A new store belongs to its device and holds nothing; a clock is left in it.
pub proof fn new_store_is_empty(device_id: String, db: Database, id: &String, left: bool)
    requires
        call_ensures(Database::new, (device_id,), db),
        call_ensures(Database::device_id, (&db,), id),
        call_ensures(Database::has_clock_left, (&db,), left),
    ensures
        id@ == device_id@,
        left,
        db@.device_id == device_id@,
        db@.clips.len() == 0 && db@.clip_seq == 0,
        db@.events.len() == 0 && db@.event_seq == 0,
        db@.states.len() == 0,
        db@.peers.len() == 0,
{
}

/// A clock is left exactly where every event has one below the largest number,
/// and the next one is the machine's, or one more than the largest in the log.
pub proof fn next_clock_is_past_the_log(db: Database, left: bool, physical: i64, r: i64, i: int)
    requires
        db@.wf(),
        call_ensures(Database::has_clock_left, (&db,), left),
        left ==> call_ensures(Database::next_hlc_at, (&db, physical), r),
        0 <= i < db@.events.len(),
    ensures
        left ==> db@.events[i].vector_clock < 9223372036854775807,
        !left ==> exists|k: int|
            0 <= k < db@.events.len() && (#[trigger] db@.events[k]).vector_clock >= 9223372036854775807,
        left ==> is_next_clock(db@.events, physical as int, r as int),
{
    crate::db::max_clock_is_largest(db@.events, i);
    next_clock_is_smallest(db@.events, physical as int);
    crate::laws::changes::largest_is_there(db@.events);
}

/// The clock of the next event is one that follows the log at some time; only a
/// clock of the machine set to before 1970 keeps it from being given.
pub proof fn next_clock_follows_the_log(db: Database, r: Result<i64, DbError>)
    requires
        db@.wf(),
        db@.clock_left(),
        call_ensures(Database::get_next_hlc, (&db,), r),
    ensures
        r matches Ok(n) ==> exists|physical: int| #[trigger] is_next_clock(db@.events, physical, n as int),
        r matches Err(e) ==> e == DbError::ClockBeforeEpoch,
{
    if r is Ok {
        let physical = choose|physical: int| r->Ok_0 == #[trigger] model::next_hlc(db@.events, physical);
        next_clock_is_smallest(db@.events, physical);
    }
}

/// The uuid and the digest of a clip are found by its number. A clip without a
/// uuid is an error, and so is the digest of one that is not there.
pub proof fn clips_are_found_by_number(
    db: Database,
    id: i64,
    uuid: Result<Option<String>, DbError>,
    hash: Result<Option<String>, DbError>,
    i: int,
)
    requires
        db@.wf(),
        call_ensures(Database::get_uuid_by_id, (&db, id), uuid),
        call_ensures(Database::get_hash_by_id, (&db, id), hash),
    ensures
        0 <= i < db@.clips.len() && db@.clips[i].id == id ==> {
            let c = db@.clips[i];
            &&& c.uuid is Some ==> (uuid matches Ok(Some(u)) && u@ == c.uuid->0)
            &&& c.uuid is None ==> (uuid matches Err(DbError::MissingUuid))
            &&& c.payload_hash is Some ==> (hash matches Ok(Some(h)) && h@ == c.payload_hash->0)
            &&& c.payload_hash is None ==> (hash matches Ok(None))
        },
        (forall|k: int| 0 <= k < db@.clips.len() ==> (#[trigger] db@.clips[k]).id != id) ==> {
            &&& (uuid matches Ok(None))
            &&& (hash matches Err(DbError::NoSuchClip))
        },
{
    if 0 <= i < db@.clips.len() && db@.clips[i].id == id {
        clip_found(db@.clips, db@.clip_seq, i);
    }
}

/// How far this device has followed an author is what the row of the two says,
/// and zero where there is none; the list of all of them says the same.
pub proof fn followed_clock_is_that_of_the_row(db: Database, author: &str, r: i64, all: Clocks, listed: Option<i64>, i: int)
    requires
        db@.wf(),
        all.wf(),
        call_ensures(Database::get_peer_sync_state, (&db, author), r),
        call_ensures(Database::get_all_sync_states, (&db,), all),
        call_ensures(Clocks::get, (&all, author), listed),
    ensures
        0 <= i < db@.states.len() && db@.states[i].author_id == author@ && db@.states[i].peer_id == db@.device_id ==> {
            &&& r == db@.states[i].acknowledged_clock
            &&& listed == Some(r)
        },
        (forall|k: int|
            0 <= k < db@.states.len() ==> (#[trigger] db@.states[k]).author_id != author@ || db@.states[k].peer_id
                != db@.device_id) ==> r == 0 && listed is None,
{
    if 0 <= i < db@.states.len() && db@.states[i].author_id == author@ && db@.states[i].peer_id == db@.device_id {
        crate::laws::state_found(db@.states, i);
    }
}

/// Every known device is listed once, with its name and when it was seen, those
/// seen last first, and no other device is.
pub proof fn known_devices_are_listed(db: Database, r: Vec<KnownPeer>, i: int, j: int)
    requires
        call_ensures(Database::get_known_peers, (&db,), r),
    ensures
        r@.len() == db@.peers.len(),
        0 <= i < j < r@.len() ==> r@[i].last_seen >= r@[j].last_seen,
        0 <= i < r@.len() ==> exists|k: int|
            0 <= k < db@.peers.len() && r@[i].device_id@ == (#[trigger] db@.peers[k]).device_id && r@[i].name@
                == db@.peers[k].name && r@[i].last_seen == db@.peers[k].last_seen,
        0 <= i < db@.peers.len() ==> exists|k: int|
            0 <= k < r@.len() && (#[trigger] r@[k]).device_id@ == db@.peers[i].device_id && r@[k].name@
                == db@.peers[i].name && r@[k].last_seen == db@.peers[i].last_seen,
{
    let listed = tables::peer_views(r@);
    let known = db@.peers;
    listed.to_multiset_ensures();
    known.to_multiset_ensures();
    if 0 <= i < j < r@.len() {
        assert(listed[i] == r@[i]@ && listed[j] == r@[j]@);
        assert(listed[i].last_seen >= listed[j].last_seen);
    }
    if 0 <= i < r@.len() {
        assert(listed[i] == r@[i]@);
        assert(listed.contains(listed[i]));
        assert(known.to_multiset().count(listed[i]) > 0);
        assert(known.contains(listed[i]));
        let k = choose|k: int| 0 <= k < known.len() && known[k] == listed[i];
        assert(known[k].device_id == r@[i].device_id@);
    }
    if 0 <= i < known.len() {
        assert(known.contains(known[i]));
        assert(listed.to_multiset().count(known[i]) > 0);
        assert(listed.contains(known[i]));
        let k = choose|k: int| 0 <= k < listed.len() && listed[k] == known[i];
        assert(listed[k] == r@[k]@);
        assert(r@[k].device_id@ == known[i].device_id);
    }
}

// ---------------------------------------------------------------------------
// Loading
// ---------------------------------------------------------------------------

/// A log without two events of one clip, device and clock has nothing to drop.
proof fn nothing_to_drop(events: Seq<EventView>)
    requires
        model::events_unique(events),
    ensures
        model::deduplicated(events) == events,
    decreases events.len(),
{
    if events.len() > 0 {
        let front = events.drop_last();
        assert forall|i: int, j: int| 0 <= i < j < front.len() implies !model::same_event(
            #[trigger] front[i],
            #[trigger] front[j],
        ) by {
            assert(!model::same_event(events[i], events[j]));
        }
        nothing_to_drop(front);
        let e = events.last();
        if model::logs(front, e.clip_uuid, e.device_id, e.vector_clock) {
            let i = choose|i: int|
                0 <= i < front.len() && (#[trigger] front[i]).clip_uuid == e.clip_uuid && front[i].device_id == e.device_id
                    && front[i].vector_clock == e.vector_clock;
            assert(!model::same_event(events[i], events[events.len() - 1]));
        }
        assert(front.push(e) =~= events);
    }
}

/// Of events with one clip, device and clock the first is kept, with all it
/// says, and no other; where there is only one, it is kept.
proof fn first_of_its_like_is_kept(events: Seq<EventView>, i: int)
    requires
        0 <= i < events.len(),
        forall|k: int| 0 <= k < i ==> !model::same_event(#[trigger] events[k], events[i]),
    ensures
        model::deduplicated(events).contains(events[i]),
    decreases events.len(),
{
    let front = events.drop_last();
    let kept = model::deduplicated(front);
    let all = model::deduplicated(events);
    let e = events[i];
    if i < front.len() {
        assert forall|k: int| 0 <= k < i implies !model::same_event(#[trigger] front[k], front[i]) by {
            assert(!model::same_event(events[k], events[i]));
        }
        first_of_its_like_is_kept(front, i);
        let k = choose|k: int| 0 <= k < kept.len() && kept[k] == e;
        assert(all[k] == e);
    } else {
        if model::logs(kept, e.clip_uuid, e.device_id, e.vector_clock) {
            let j = choose|j: int|
                0 <= j < kept.len() && (#[trigger] kept[j]).clip_uuid == e.clip_uuid && kept[j].device_id == e.device_id
                    && kept[j].vector_clock == e.vector_clock;
            let k = kept_event_origin(front, j);
            assert(!model::same_event(events[k], events[i]));
        }
        assert(all == kept.push(e));
        assert(all[kept.len() as int] == e);
    }
}

/// A kept event was in the log.
proof fn kept_event_origin(events: Seq<EventView>, j: int) -> (k: int)
    requires
        0 <= j < model::deduplicated(events).len(),
    ensures
        0 <= k < events.len(),
        events[k] == model::deduplicated(events)[j],
    decreases events.len(),
{
    let front = events.drop_last();
    let kept = model::deduplicated(front);
    if j < kept.len() {
        kept_event_origin(front, j)
    } else {
        events.len() - 1
    }
}

/// An event that comes after one of the same clip, device and clock is not kept,
/// unless it says the same in everything.
proof fn later_ones_are_dropped(events: Seq<EventView>, i: int, event_seq: int)
    requires
        model::events_ordered(events, event_seq),
        0 <= i < events.len(),
        exists|k: int| 0 <= k < i && model::same_event(#[trigger] events[k], events[i]),
    ensures
        !model::deduplicated(events).contains(events[i]),
    decreases events.len(),
{
    let front = events.drop_last();
    let kept = model::deduplicated(front);
    let all = model::deduplicated(events);
    let e = events[i];
    let first = choose|k: int| 0 <= k < i && model::same_event(#[trigger] events[k], events[i]);
    assert(model::events_ordered(front, event_seq)) by {
        assert forall|a: int, b: int| 0 <= a < b < front.len() implies (#[trigger] front[a]).id < (
        #[trigger] front[b]).id by {
            assert(events[a].id < events[b].id);
        }
        assert forall|a: int| 0 <= a < front.len() implies (#[trigger] front[a]).id <= event_seq by {
            assert(events[a].id <= event_seq);
        }
    }
    if i < front.len() {
        assert(model::same_event(front[first], front[i]));
        later_ones_are_dropped(front, i, event_seq);
        if all.contains(e) {
            let k = choose|k: int| 0 <= k < all.len() && all[k] == e;
            if k < kept.len() {
                assert(kept[k] == e);
            } else {
                assert(events[i].id < events[events.len() - 1].id);
            }
        }
    } else {
        crate::db::loading::deduplication_is_sound(front, event_seq);
        let f = front[first];
        assert(model::logs(kept, f.clip_uuid, f.device_id, f.vector_clock));
        assert(all == kept);
        if all.contains(e) {
            let k = choose|k: int| 0 <= k < all.len() && all[k] == e;
            let o = kept_event_origin(front, k);
            assert(events[o].id < events[i].id);
        }
    }
}

/// Rows are loaded exactly where each table could be that of a store: the numbers
/// of the clips and of the events rise and are none past the last one given out,
/// no uuid is there twice, nor the acknowledgement of two devices, nor a known
/// device.
pub proof fn sound_tables_are_loaded(
    device_id: String,
    clips: Vec<ClipRow>,
    clip_seq: i64,
    events: Vec<EventRow>,
    event_seq: i64,
    states: Vec<SyncStateRow>,
    peers: Vec<KnownPeer>,
    r: Option<Database>,
)
    requires
        call_ensures(Database::from_tables, (device_id, clips, clip_seq, events, event_seq, states, peers), r),
    ensures
        r is Some <==> {
            &&& clip_seq >= 0 && event_seq >= 0
            &&& forall|i: int, j: int| 0 <= i < j < clips@.len() ==> (#[trigger] clips@[i]).id < (#[trigger] clips@[j]).id
            &&& forall|i: int| 0 <= i < clips@.len() ==> (#[trigger] clips@[i]).id <= clip_seq
            &&& forall|i: int, j: int|
                0 <= i < j < clips@.len() && (#[trigger] clips@[i]).uuid is Some && (#[trigger] clips@[j]).uuid is Some
                    ==> clips@[i].uuid->0@ != clips@[j].uuid->0@
            &&& forall|i: int, j: int|
                0 <= i < j < events@.len() ==> (#[trigger] events@[i]).id < (#[trigger] events@[j]).id
            &&& forall|i: int| 0 <= i < events@.len() ==> (#[trigger] events@[i]).id <= event_seq
            &&& forall|i: int, j: int|
                0 <= i < j < states@.len() ==> (#[trigger] states@[i]).author_id@ != (#[trigger] states@[j]).author_id@
                    || states@[i].peer_id@ != states@[j].peer_id@
            &&& forall|i: int, j: int|
                0 <= i < j < peers@.len() ==> (#[trigger] peers@[i]).device_id@ != (#[trigger] peers@[j]).device_id@
        },
{
    let c = tables::clip_views(clips@);
    let e = tables::event_views(events@);
    let s = tables::state_views(states@);
    let p = tables::peer_views(peers@);
    assert(forall|i: int| 0 <= i < c.len() ==> #[trigger] c[i] == clips@[i]@);
    assert(forall|i: int| 0 <= i < e.len() ==> #[trigger] e[i] == events@[i]@);
    assert(forall|i: int| 0 <= i < s.len() ==> #[trigger] s[i] == states@[i]@);
    assert(forall|i: int| 0 <= i < p.len() ==> #[trigger] p[i] == peers@[i]@);
    if r is Some {
        assert forall|i: int, j: int| 0 <= i < j < clips@.len() implies (#[trigger] clips@[i]).id < (
        #[trigger] clips@[j]).id by {
            assert(c[i].id < c[j].id);
        }
        assert forall|i: int| 0 <= i < clips@.len() implies (#[trigger] clips@[i]).id <= clip_seq by {
            assert(c[i].id <= clip_seq);
        }
        assert forall|i: int, j: int|
            0 <= i < j < clips@.len() && (#[trigger] clips@[i]).uuid is Some && (#[trigger] clips@[j]).uuid
                is Some implies clips@[i].uuid->0@ != clips@[j].uuid->0@ by {
            assert(c[i].uuid != c[j].uuid);
        }
        assert forall|i: int, j: int| 0 <= i < j < events@.len() implies (#[trigger] events@[i]).id < (
        #[trigger] events@[j]).id by {
            assert(e[i].id < e[j].id);
        }
        assert forall|i: int| 0 <= i < events@.len() implies (#[trigger] events@[i]).id <= event_seq by {
            assert(e[i].id <= event_seq);
        }
        assert forall|i: int, j: int| 0 <= i < j < states@.len() implies (#[trigger] states@[i]).author_id@ != (
        #[trigger] states@[j]).author_id@ || states@[i].peer_id@ != states@[j].peer_id@ by {
            assert(s[i].author_id != s[j].author_id || s[i].peer_id != s[j].peer_id);
        }
        assert forall|i: int, j: int| 0 <= i < j < peers@.len() implies (#[trigger] peers@[i]).device_id@ != (
        #[trigger] peers@[j]).device_id@ by {
            assert(p[i].device_id != p[j].device_id);
        }
    }
}

/// A loaded store holds the rows it was given, each in its place, but for the
/// events: of those with one clip, device and clock the first is kept and the
/// others are not.
pub proof fn loaded_store_holds_the_rows(
    device_id: String,
    clips: Vec<ClipRow>,
    clip_seq: i64,
    events: Vec<EventRow>,
    event_seq: i64,
    states: Vec<SyncStateRow>,
    peers: Vec<KnownPeer>,
    db: Database,
    i: int,
)
    requires
        call_ensures(
            Database::from_tables,
            (device_id, clips, clip_seq, events, event_seq, states, peers),
            Some(db),
        ),
    ensures
        db@.device_id == device_id@,
        db@.clip_seq == clip_seq,
        db@.event_seq == event_seq,
        db@.clips.len() == clips@.len(),
        0 <= i < clips@.len() ==> db@.clips[i] == clips@[i]@,
        db@.states.len() == states@.len(),
        0 <= i < states@.len() ==> db@.states[i] == states@[i]@,
        db@.peers.len() == peers@.len(),
        0 <= i < peers@.len() ==> db@.peers[i] == peers@[i]@,
        0 <= i < events@.len() ==> (db@.events.contains(events@[i]@) <==> forall|k: int|
            0 <= k < i ==> (#[trigger] events@[k]).clip_uuid@ != events@[i].clip_uuid@ || events@[k].device_id@
                != events@[i].device_id@ || events@[k].vector_clock != events@[i].vector_clock),
        0 <= i < db@.events.len() ==> exists|k: int| 0 <= k < events@.len() && (#[trigger] events@[k])@ == db@.events[i],
        forall|a: int, b: int| 0 <= a < b < db@.events.len() ==> (#[trigger] db@.events[a]).id < (
        #[trigger] db@.events[b]).id,
{
    let e = tables::event_views(events@);
    assert(forall|k: int| 0 <= k < e.len() ==> #[trigger] e[k] == events@[k]@);
    crate::db::loading::deduplication_is_sound(e, event_seq as int);
    if 0 <= i < events@.len() {
        if forall|k: int|
            0 <= k < i ==> (#[trigger] events@[k]).clip_uuid@ != events@[i].clip_uuid@ || events@[k].device_id@
                != events@[i].device_id@ || events@[k].vector_clock != events@[i].vector_clock {
            assert forall|k: int| 0 <= k < i implies !model::same_event(#[trigger] e[k], e[i]) by {
                assert(e[k] == events@[k]@);
            }
            first_of_its_like_is_kept(e, i);
        } else {
            let k = choose|k: int|
                0 <= k < i && !((#[trigger] events@[k]).clip_uuid@ != events@[i].clip_uuid@ || events@[k].device_id@
                    != events@[i].device_id@ || events@[k].vector_clock != events@[i].vector_clock);
            assert(model::same_event(e[k], e[i]));
            later_ones_are_dropped(e, i, event_seq as int);
        }
    }
    if 0 <= i < db@.events.len() {
        let k = kept_event_origin(e, i);
        assert(events@[k]@ == db@.events[i]);
    }
}

/// A store that is loaded from the rows that another shows is the other again.
pub proof fn shown_rows_load_the_same_store(
    db: Database,
    device_id: String,
    clips: Vec<ClipRow>,
    clip_seq: i64,
    events: Vec<EventRow>,
    event_seq: i64,
    states: Vec<SyncStateRow>,
    peers: Vec<KnownPeer>,
    r: Option<Database>,
)
    requires
        db@.wf(),
        call_ensures(Database::device_id, (&db,), &device_id),
        call_ensures(Database::clip_rows, (&db,), &clips),
        call_ensures(Database::clip_sequence, (&db,), clip_seq),
        call_ensures(Database::event_rows, (&db,), &events),
        call_ensures(Database::event_sequence, (&db,), event_seq),
        call_ensures(Database::state_rows, (&db,), &states),
        call_ensures(Database::peer_rows, (&db,), &peers),
        call_ensures(Database::from_tables, (device_id, clips, clip_seq, events, event_seq, states, peers), r),
    ensures
        r matches Some(d) && d@ == db@,
{
    nothing_to_drop(db@.events);
}

/// The rows that a store shows are its own, each in its place.
pub proof fn rows_are_shown_in_their_place(
    db: Database,
    clips: Vec<ClipRow>,
    events: Vec<EventRow>,
    states: Vec<SyncStateRow>,
    peers: Vec<KnownPeer>,
    clip_seq: i64,
    event_seq: i64,
    i: int,
)
    requires
        call_ensures(Database::clip_rows, (&db,), &clips),
        call_ensures(Database::event_rows, (&db,), &events),
        call_ensures(Database::state_rows, (&db,), &states),
        call_ensures(Database::peer_rows, (&db,), &peers),
        call_ensures(Database::clip_sequence, (&db,), clip_seq),
        call_ensures(Database::event_sequence, (&db,), event_seq),
    ensures
        clip_seq == db@.clip_seq && event_seq == db@.event_seq,
        clips@.len() == db@.clips.len(),
        0 <= i < clips@.len() ==> clips@[i]@ == db@.clips[i],
        events@.len() == db@.events.len(),
        0 <= i < events@.len() ==> events@[i]@ == db@.events[i],
        states@.len() == db@.states.len(),
        0 <= i < states@.len() ==> states@[i]@ == db@.states[i],
        peers@.len() == db@.peers.len(),
        0 <= i < peers@.len() ==> peers@[i]@ == db@.peers[i],
{
    tables::rows_stand_in_their_order(clips@, events@, Seq::empty(), states@, peers@, i);
}

// ---------------------------------------------------------------------------
// Saving
// ---------------------------------------------------------------------------

/// The changes since rows were saved are the numbers of the saved rows that no
/// row has any more, and the places of the rows that were not saved as they are
/// now: no other number, and no other place.
proof fn changes_are_what_differs<V>(c: Changes, saved: Seq<V>, rows: Seq<V>, id: spec_fn(V) -> int, n: i64, j: usize)
    requires
        saving::brings_up_to_date(c, saved, rows, id),
    ensures
        c.gone@.contains(n) <==> (exists|k: int| 0 <= k < saved.len() && id(#[trigger] saved[k]) == n) && (forall|k: int|
            0 <= k < rows.len() ==> id(#[trigger] rows[k]) != n),
        c.written@.contains(j) <==> j < rows.len() && !saved.contains(rows[j as int]),
{
    let before = saving::ids_of(saved, id);
    let now = saving::ids_of(rows, id);
    let gone = c.gone@.map_values(|n: i64| n as int);
    seqs::filter_membership(before, |m: int| !now.contains(m), n as int);
    assert(forall|k: int| 0 <= k < saved.len() ==> #[trigger] before[k] == id(saved[k]));
    assert(forall|k: int| 0 <= k < rows.len() ==> #[trigger] now[k] == id(rows[k]));
    assert(c.gone@.contains(n) <==> gone.contains(n as int)) by {
        if c.gone@.contains(n) {
            let k = choose|k: int| 0 <= k < c.gone@.len() && c.gone@[k] == n;
            assert(gone[k] == n);
        }
        if gone.contains(n as int) {
            let k = choose|k: int| 0 <= k < gone.len() && gone[k] == n;
            assert(c.gone@[k] == n);
        }
    }
    assert(before.contains(n as int) <==> exists|k: int| 0 <= k < saved.len() && id(#[trigger] saved[k]) == n) by {
        if before.contains(n as int) {
            let k = choose|k: int| 0 <= k < before.len() && before[k] == n;
            assert(id(saved[k]) == n);
        }
        if exists|k: int| 0 <= k < saved.len() && id(#[trigger] saved[k]) == n {
            let k = choose|k: int| 0 <= k < saved.len() && id(#[trigger] saved[k]) == n;
            assert(before[k] == n);
        }
    }
    assert(now.contains(n as int) <==> exists|k: int| 0 <= k < rows.len() && id(#[trigger] rows[k]) == n) by {
        if now.contains(n as int) {
            let k = choose|k: int| 0 <= k < now.len() && now[k] == n;
            assert(id(rows[k]) == n);
        }
        if exists|k: int| 0 <= k < rows.len() && id(#[trigger] rows[k]) == n {
            let k = choose|k: int| 0 <= k < rows.len() && id(#[trigger] rows[k]) == n;
            assert(now[k] == n);
        }
    }
    let places = Seq::new(rows.len(), |k: int| k);
    let written = c.written@.map_values(|k: usize| k as int);
    seqs::filter_membership(places, |k: int| !saved.contains(rows[k]), j as int);
    assert(c.written@.contains(j) <==> written.contains(j as int)) by {
        if c.written@.contains(j) {
            let k = choose|k: int| 0 <= k < c.written@.len() && c.written@[k] == j;
            assert(written[k] == j);
        }
        if written.contains(j as int) {
            let k = choose|k: int| 0 <= k < written.len() && written[k] == j;
            assert(c.written@[k] == j);
        }
    }
    assert(places.contains(j as int) <==> j < rows.len()) by {
        if j < rows.len() {
            assert(places[j as int] == j);
        }
    }
}

/// Since clips were saved those have changed that are not among the saved ones
/// as they are now, and those have gone whose number no clip has any more.
pub proof fn changed_clips_are_written(db: Database, saved: Vec<ClipRow>, c: Changes, n: i64, j: usize)
    requires
        db@.wf(),
        forall|i: int, j: int| 0 <= i < j < saved@.len() ==> (#[trigger] saved@[i]).id < (#[trigger] saved@[j]).id,
        call_ensures(Database::clip_changes_since, (&db, &saved), c),
    ensures
        c.gone@.contains(n) <==> (exists|k: int| 0 <= k < saved@.len() && (#[trigger] saved@[k]).id == n) && (forall|
            k: int,
        |
            0 <= k < db@.clips.len() ==> (#[trigger] db@.clips[k]).id != n),
        c.written@.contains(j) <==> j < db@.clips.len() && forall|k: int|
            0 <= k < saved@.len() ==> (#[trigger] saved@[k])@ != db@.clips[j as int],
{
    let rows = tables::clip_views(saved@);
    assert(forall|k: int| 0 <= k < rows.len() ==> #[trigger] rows[k] == saved@[k]@);
    changes_are_what_differs(c, rows, db@.clips, saving::clip_id(), n, j);
    assert((exists|k: int| 0 <= k < saved@.len() && (#[trigger] saved@[k]).id == n) <==> exists|k: int|
        0 <= k < rows.len() && (saving::clip_id())(#[trigger] rows[k]) == n) by {
        if exists|k: int| 0 <= k < saved@.len() && (#[trigger] saved@[k]).id == n {
            let k = choose|k: int| 0 <= k < saved@.len() && (#[trigger] saved@[k]).id == n;
            assert((saving::clip_id())(rows[k]) == n);
        }
        if exists|k: int| 0 <= k < rows.len() && (saving::clip_id())(#[trigger] rows[k]) == n {
            let k = choose|k: int| 0 <= k < rows.len() && (saving::clip_id())(#[trigger] rows[k]) == n;
            assert(saved@[k].id == n);
        }
    }
    if j < db@.clips.len() {
        let row = db@.clips[j as int];
        if rows.contains(row) {
            let k = choose|k: int| 0 <= k < rows.len() && rows[k] == row;
            assert(saved@[k]@ == row);
        }
        if exists|k: int| 0 <= k < saved@.len() && (#[trigger] saved@[k])@ == row {
            let k = choose|k: int| 0 <= k < saved@.len() && (#[trigger] saved@[k])@ == row;
            assert(rows[k] == row);
        }
    }
}

/// Since events were saved those have changed that are not among the saved ones
/// as they are now, and those have gone whose number no event has any more.
pub proof fn changed_events_are_written(db: Database, saved: Vec<EventRow>, c: Changes, n: i64, j: usize)
    requires
        db@.wf(),
        forall|i: int, j: int| 0 <= i < j < saved@.len() ==> (#[trigger] saved@[i]).id < (#[trigger] saved@[j]).id,
        call_ensures(Database::event_changes_since, (&db, &saved), c),
    ensures
        c.gone@.contains(n) <==> (exists|k: int| 0 <= k < saved@.len() && (#[trigger] saved@[k]).id == n) && (forall|
            k: int,
        |
            0 <= k < db@.events.len() ==> (#[trigger] db@.events[k]).id != n),
        c.written@.contains(j) <==> j < db@.events.len() && forall|k: int|
            0 <= k < saved@.len() ==> (#[trigger] saved@[k])@ != db@.events[j as int],
{
    let rows = tables::event_views(saved@);
    assert(forall|k: int| 0 <= k < rows.len() ==> #[trigger] rows[k] == saved@[k]@);
    changes_are_what_differs(c, rows, db@.events, saving::event_id(), n, j);
    assert((exists|k: int| 0 <= k < saved@.len() && (#[trigger] saved@[k]).id == n) <==> exists|k: int|
        0 <= k < rows.len() && (saving::event_id())(#[trigger] rows[k]) == n) by {
        if exists|k: int| 0 <= k < saved@.len() && (#[trigger] saved@[k]).id == n {
            let k = choose|k: int| 0 <= k < saved@.len() && (#[trigger] saved@[k]).id == n;
            assert((saving::event_id())(rows[k]) == n);
        }
        if exists|k: int| 0 <= k < rows.len() && (saving::event_id())(#[trigger] rows[k]) == n {
            let k = choose|k: int| 0 <= k < rows.len() && (saving::event_id())(#[trigger] rows[k]) == n;
            assert(saved@[k].id == n);
        }
    }
    if j < db@.events.len() {
        let row = db@.events[j as int];
        if rows.contains(row) {
            let k = choose|k: int| 0 <= k < rows.len() && rows[k] == row;
            assert(saved@[k]@ == row);
        }
        if exists|k: int| 0 <= k < saved@.len() && (#[trigger] saved@[k])@ == row {
            let k = choose|k: int| 0 <= k < saved@.len() && (#[trigger] saved@[k])@ == row;
            assert(rows[k] == row);
        }
    }
}

} // verus!
