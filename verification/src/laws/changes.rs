//! What each change of this device does to the store, clip by clip.
use crate::db;
use crate::db::Database;
use crate::model;
use crate::model::{DbError, DbView};
use crate::seqs;
use crate::tables::{ClipView, EventView};
use vstd::prelude::*;

verus! {

broadcast use vstd::seq_lib::group_seq_properties;

/// In a store no two clips have the same number.
pub proof fn clip_found(clips: Seq<ClipView>, clip_seq: int, i: int)
    requires
        model::clips_wf(clips, clip_seq),
        0 <= i < clips.len(),
    ensures
        model::clip_at(clips, clips[i].id) == Some(i),
{
    let id = clips[i].id;
    let k = choose|k: int| 0 <= k < clips.len() && (#[trigger] clips[k]).id == id;
    assert(clips[i].id == id);
    if k < i {
        assert(clips[k].id < clips[i].id);
    } else if i < k {
        assert(clips[i].id < clips[k].id);
    }
}

/// In a store no two clips have the same uuid.
pub proof fn uuid_found(clips: Seq<ClipView>, clip_seq: int, i: int)
    requires
        model::clips_wf(clips, clip_seq),
        0 <= i < clips.len(),
        clips[i].uuid is Some,
    ensures
        model::uuid_at(clips, clips[i].uuid->0) == Some(i),
{
    let uuid = clips[i].uuid->0;
    let k = choose|k: int| 0 <= k < clips.len() && (#[trigger] clips[k]).uuid == Some(uuid);
    assert(clips[i].uuid == Some(uuid));
    if k < i {
        assert(clips[k].uuid != clips[i].uuid);
    } else if i < k {
        assert(clips[i].uuid != clips[k].uuid);
    }
}

/// Whether nothing but the clips and the log differs.
pub open spec fn rest_stays(before: DbView, after: DbView) -> bool {
    &&& after.device_id == before.device_id
    &&& after.states == before.states
    &&& after.peers == before.peers
}

/// Whether a clock is the next of a log: it is not behind the machine's clock,
/// it is past every clock in the log, and no smaller one is.
pub open spec fn is_next_clock(events: Seq<EventView>, physical: int, clock: int) -> bool {
    &&& clock >= physical
    &&& forall|i: int| 0 <= i < events.len() ==> (#[trigger] events[i]).vector_clock < clock
    &&& clock == physical || (events.len() == 0 && clock == 1) || exists|i: int|
        0 <= i < events.len() && (#[trigger] events[i]).vector_clock == clock - 1
}

pub proof fn largest_is_there(events: Seq<EventView>)
    requires
        events.len() > 0,
    ensures
        exists|i: int| 0 <= i < events.len() && (#[trigger] events[i]).vector_clock == model::max_clock(events),
    decreases events.len(),
{
    if events.len() == 1 {
        assert(events[0].vector_clock == model::max_clock(events));
    } else {
        let front = events.drop_last();
        largest_is_there(front);
        let k = choose|k: int| 0 <= k < front.len() && (#[trigger] front[k]).vector_clock == model::max_clock(front);
        assert(events[k] == front[k]);
        assert(events[events.len() - 1] == events.last());
    }
}

/// The clock of the next event is the smallest that is past all.
pub proof fn next_clock_is_smallest(events: Seq<EventView>, physical: int)
    ensures
        is_next_clock(events, physical, model::next_hlc(events, physical)),
{
    crate::laws::next_clock_is_past_all(events, physical);
    if events.len() > 0 {
        largest_is_there(events);
    }
}

/// What a device that has made no event, or some, has come to.
pub proof fn own_clock_is_largest(db: DbView, i: int)
    ensures
        0 <= i < db.events.len() && db.events[i].device_id == db.device_id ==> db.events[i].vector_clock
            <= db.latest_hlc(),
        db.latest_hlc() != 0 ==> exists|k: int|
            0 <= k < db.events.len() && (#[trigger] db.events[k]).device_id == db.device_id
                && db.events[k].vector_clock == db.latest_hlc(),
        0 <= i < db.events.len() && db.events[i].device_id == db.device_id ==> exists|k: int|
            0 <= k < db.events.len() && (#[trigger] db.events[k]).device_id == db.device_id
                && db.events[k].vector_clock == db.latest_hlc(),
{
    let own = |e: EventView| e.device_id == db.device_id;
    let mine = db.events.filter(own);
    if 0 <= i < db.events.len() && db.events[i].device_id == db.device_id {
        let k = seqs::filter_keeps(db.events, own, i);
        db::max_clock_is_largest(mine, k);
    }
    if mine.len() > 0 {
        largest_is_there(mine);
        let m = choose|m: int| 0 <= m < mine.len() && (#[trigger] mine[m]).vector_clock == model::max_clock(mine);
        let k = seqs::filter_origin(db.events, own, m);
        assert(db.events[k].device_id == db.device_id && db.events[k].vector_clock == db.latest_hlc());
    }
}

// ---------------------------------------------------------------------------
// Insertion
// ---------------------------------------------------------------------------

/// A clip is taken in if and only if there is a row number for it and for its
/// event, its uuid is free, and with it no more clips than the limit are neither
/// pinned, locked nor deleted. A limit that is not positive counts as a hundred.
pub proof fn insertion_is_refused_only_over_the_limit(
    db: DbView,
    content_type: Seq<char>,
    payload: Seq<u8>,
    limit: int,
    has_attachment: bool,
    attachment_path: Option<Seq<char>>,
    hash: Seq<char>,
    uuid: Seq<char>,
    timestamp: int,
    physical: int,
)
    requires
        db.wf(),
    ensures
        ({
            let (a, r) = db.insert_clip(
                content_type,
                payload,
                limit,
                has_attachment,
                attachment_path,
                hash,
                uuid,
                timestamp,
                physical,
            );
            let counted = db.clips.filter(|c: ClipView| !c.pinned && !c.is_locked && !c.is_deleted).len() + 1;
            let taken = exists|i: int| 0 <= i < db.clips.len() && (#[trigger] db.clips[i]).uuid == Some(uuid);
            let room = db.clip_seq < i64::MAX && db.event_seq < i64::MAX;
            &&& limit > 0 && room && !taken ==> (r is Ok <==> counted <= limit)
            &&& limit <= 0 && room && !taken ==> (r is Ok <==> counted <= 100)
            &&& room && !taken && r is Err ==> r == Err::<int, DbError>(DbError::PayloadRequired)
            &&& db.clip_seq == i64::MAX ==> r == Err::<int, DbError>(DbError::Full) && a == db
            &&& db.clip_seq < i64::MAX && taken ==> r == Err::<int, DbError>(DbError::UuidTaken) && a == db
            &&& !taken && db.event_seq == i64::MAX ==> r == Err::<int, DbError>(DbError::Full)
        }),
{
    reveal(Seq::filter);
    let whole = db.appended(
        uuid,
        content_type,
        payload,
        timestamp,
        false,
        false,
        false,
        Some(hash),
        has_attachment,
        attachment_path,
    ).clips;
    assert(whole.drop_last() =~= db.clips);
    assert(model::loose_clips(whole).len() == model::loose_clips(db.clips).len() + 1);
}

/// What an insertion writes: the clip as it was given, not pinned, locked or
/// deleted, behind the others, and one event that tells of it with the next
/// clock of this device. Of the clips that were there only those leave that were
/// deleted and stamped more than 604800 before, and none leaves where the
/// insertion is refused as over the limit; the others stay as they were, in
/// their order.
pub proof fn insertion_writes_the_clip(
    db: DbView,
    content_type: Seq<char>,
    payload: Seq<u8>,
    limit: int,
    has_attachment: bool,
    attachment_path: Option<Seq<char>>,
    hash: Seq<char>,
    uuid: Seq<char>,
    timestamp: int,
    physical: int,
)
    requires
        db.wf(),
    ensures
        ({
            let (a, r) = db.insert_clip(
                content_type,
                payload,
                limit,
                has_attachment,
                attachment_path,
                hash,
                uuid,
                timestamp,
                physical,
            );
            let old_ones = a.clips.drop_last();
            let e = a.events.last();
            r is Ok || r == Err::<int, DbError>(DbError::PayloadRequired) ==> {
                &&& a.clips.len() > 0
                &&& a.clips.last() == (ClipView {
                    id: db.clip_seq + 1,
                    uuid: Some(uuid),
                    content_type,
                    encrypted_payload: payload,
                    timestamp,
                    pinned: false,
                    is_deleted: false,
                    is_locked: false,
                    payload_hash: Some(hash),
                    has_attachment,
                    attachment_path,
                })
                &&& forall|c: ClipView| #[trigger]
                    old_ones.contains(c) <==> db.clips.contains(c) && !(r is Ok && c.is_deleted && c.timestamp
                        < timestamp - 604_800)
                &&& forall|i: int, j: int| 0 <= i < j < a.clips.len() ==> (#[trigger] a.clips[i]).id < (
                #[trigger] a.clips[j]).id
                &&& a.clip_seq == db.clip_seq + 1
                &&& a.events.drop_last() == db.events
                &&& a.events.len() == db.events.len() + 1
                &&& a.event_seq == db.event_seq + 1
                &&& r is Ok ==> r == Ok::<int, DbError>(e.id)
                &&& e == (EventView {
                    id: db.event_seq + 1,
                    event_type: "INSERT"@,
                    clip_uuid: uuid,
                    device_id: db.device_id,
                    vector_clock: e.vector_clock,
                    timestamp,
                    content_type: Some(content_type),
                    payload: Some(payload),
                    has_attachment: Some(has_attachment),
                    attachment_path,
                })
                &&& is_next_clock(db.events, physical, e.vector_clock)
                &&& rest_stays(db, a)
            }
        }),
{
    reveal(Seq::filter);
    let (a, r) = db.insert_clip(
        content_type,
        payload,
        limit,
        has_attachment,
        attachment_path,
        hash,
        uuid,
        timestamp,
        physical,
    );
    let old_ones = a.clips.drop_last();
    let whole = db.appended(
        uuid,
        content_type,
        payload,
        timestamp,
        false,
        false,
        false,
        Some(hash),
        has_attachment,
        attachment_path,
    ).clips;
    let kept = |c: ClipView| !(c.is_deleted && c.timestamp < timestamp - model::DELETED_AGE);
    next_clock_is_smallest(db.events, physical);
    assert(whole.drop_last() =~= db.clips);
    if r is Ok || r == Err::<int, DbError>(DbError::PayloadRequired) {
        if r is Ok {
            assert(a.clips == whole.filter(kept));
            assert(whole.filter(kept) == db.clips.filter(kept).push(whole.last()));
            assert(old_ones =~= db.clips.filter(kept));
        } else {
            assert(old_ones =~= db.clips);
        }
        assert forall|c: ClipView| #[trigger]
            old_ones.contains(c) <==> db.clips.contains(c) && !(r is Ok && c.is_deleted && c.timestamp < timestamp
                - 604_800) by {
            seqs::filter_membership(db.clips, kept, c);
        }
        assert forall|i: int, j: int| 0 <= i < j < a.clips.len() implies (#[trigger] a.clips[i]).id < (
        #[trigger] a.clips[j]).id by {
            if r is Ok {
                let (x, y) = seqs::filter_keeps_order(whole, kept, i, j);
                assert(whole[x] == db.clips[x]);
                if y < db.clips.len() {
                    assert(whole[y] == db.clips[y]);
                }
            } else {
                assert(a.clips[i] == db.clips[i]);
                if j < db.clips.len() {
                    assert(a.clips[j] == db.clips[j]);
                }
            }
        }
        assert(a.events.drop_last() =~= db.events);
    }
}

// ---------------------------------------------------------------------------
// Marks
// ---------------------------------------------------------------------------

/// Whether an event without content was noted: it stands behind the log, under
/// the next number, and nothing else in the log changed.
pub open spec fn noted_event(
    db: DbView,
    a: DbView,
    event_type: Seq<char>,
    uuid: Seq<char>,
    timestamp: int,
    physical: int,
    has_attachment: bool,
    attachment_path: Option<Seq<char>>,
) -> bool {
    let e = a.events.last();
    &&& a.events == db.events.push(e)
    &&& a.event_seq == db.event_seq + 1
    &&& e == (EventView {
        id: db.event_seq + 1,
        event_type,
        clip_uuid: uuid,
        device_id: db.device_id,
        vector_clock: e.vector_clock,
        timestamp,
        content_type: None,
        payload: None,
        has_attachment: Some(has_attachment),
        attachment_path,
    })
    &&& is_next_clock(db.events, physical, e.vector_clock)
}

/// Pinning and unpinning sets the pin of the clip with that number and touches
/// nothing else of it and no other clip. Other devices are told, with the
/// attachment of the clip.
pub proof fn pinning_pins_one_clip(db: DbView, id: int, pinned: bool, timestamp: int, physical: int, i: int)
    requires
        db.wf(),
        0 <= i < db.clips.len(),
    ensures
        ({
            let (a, r) = db.toggle_pin(id, pinned, timestamp, physical);
            let c = db.clips[i];
            &&& a.clips.len() == db.clips.len() && a.clip_seq == db.clip_seq && rest_stays(db, a)
            &&& c.id != id ==> a.clips[i] == c
            &&& c.id == id && c.uuid is Some ==> a.clips[i] == (ClipView { pinned, ..c })
            &&& c.id == id && c.uuid is Some && db.event_seq < i64::MAX ==> r is Ok && noted_event(
                db,
                a,
                if pinned {
                    "PIN"@
                } else {
                    "UNPIN"@
                },
                c.uuid->0,
                timestamp,
                physical,
                c.has_attachment,
                c.attachment_path,
            )
            &&& c.id == id && c.uuid is Some && db.event_seq == i64::MAX ==> r == Err::<(), DbError>(DbError::Full)
                && a.events == db.events
            &&& c.id == id && c.uuid is None ==> r == Err::<(), DbError>(DbError::MissingUuid) && a == db
        }),
{
    next_clock_is_smallest(db.events, physical);
    clip_found(db.clips, db.clip_seq, i);
    if model::clip_at(db.clips, id) is Some {
        let k = model::clip_at(db.clips, id)->0;
        clip_found(db.clips, db.clip_seq, k);
    }
}

/// No clip is pinned, locked or deleted by a number that none has.
pub proof fn unknown_numbers_change_nothing(db: DbView, id: int, on: bool, timestamp: int, physical: int)
    requires
        forall|i: int| 0 <= i < db.clips.len() ==> (#[trigger] db.clips[i]).id != id,
    ensures
        db.toggle_pin(id, on, timestamp, physical) == (db, Err::<(), DbError>(DbError::NoSuchClip)),
        db.toggle_lock(id, on, timestamp, physical) == (db, Ok::<(), DbError>(())),
        db.delete_clip(id, timestamp, physical) == (db, Ok::<(), DbError>(())),
        db.permanently_delete_clip(id, timestamp, physical) == (db, Ok::<(), DbError>(())),
        db.restore_clip(id) == db,
{
    assert(db.toggle_lock(id, on, timestamp, physical).0.clips =~= db.clips);
    assert(db.delete_clip(id, timestamp, physical).0.clips =~= db.clips);
    assert(db.restore_clip(id).clips =~= db.clips);
    seqs::filter_all(db.clips, |c: ClipView| c.id != id);
}

/// Locking and unlocking sets the lock of the clip with that number and touches
/// nothing else of it and no other clip. Other devices are told of a lock only.
pub proof fn locking_locks_one_clip(db: DbView, id: int, is_locked: bool, timestamp: int, physical: int, i: int)
    requires
        db.wf(),
        0 <= i < db.clips.len(),
    ensures
        ({
            let (a, r) = db.toggle_lock(id, is_locked, timestamp, physical);
            let c = db.clips[i];
            &&& a.clips.len() == db.clips.len() && a.clip_seq == db.clip_seq && rest_stays(db, a)
            &&& c.id != id ==> a.clips[i] == c
            &&& c.id == id ==> a.clips[i] == (ClipView { is_locked, ..c })
            &&& !is_locked ==> r is Ok && a.events == db.events && a.event_seq == db.event_seq
            &&& is_locked && c.id == id && c.uuid is Some && db.event_seq < i64::MAX ==> r is Ok && noted_event(
                db,
                a,
                "LOCK"@,
                c.uuid->0,
                timestamp,
                physical,
                false,
                None,
            )
            &&& is_locked && c.id == id && c.uuid is Some && db.event_seq == i64::MAX ==> r is Ok && a.events
                == db.events
            &&& is_locked && c.id == id && c.uuid is None ==> r == Err::<(), DbError>(DbError::MissingUuid)
                && a.events == db.events
        }),
{
    next_clock_is_smallest(db.events, physical);
    clip_found(db.clips, db.clip_seq, i);
}

/// Deleting marks the clip with that number as deleted and takes its pin away;
/// nothing else of it changes, and no other clip. Other devices are told.
pub proof fn deleting_hides_one_clip(db: DbView, id: int, timestamp: int, physical: int, i: int)
    requires
        db.wf(),
        0 <= i < db.clips.len(),
    ensures
        ({
            let (a, r) = db.delete_clip(id, timestamp, physical);
            let c = db.clips[i];
            &&& a.clips.len() == db.clips.len() && a.clip_seq == db.clip_seq && rest_stays(db, a)
            &&& c.id != id ==> a.clips[i] == c
            &&& c.id == id ==> a.clips[i] == (ClipView { is_deleted: true, pinned: false, ..c })
            &&& c.id == id && c.uuid is Some && db.event_seq < i64::MAX ==> r is Ok && noted_event(
                db,
                a,
                "DELETE"@,
                c.uuid->0,
                timestamp,
                physical,
                false,
                None,
            )
            &&& c.id == id && c.uuid is Some && db.event_seq == i64::MAX ==> r is Ok && a.events == db.events
            &&& c.id == id && c.uuid is None ==> r == Err::<(), DbError>(DbError::MissingUuid) && a.events
                == db.events
        }),
{
    next_clock_is_smallest(db.events, physical);
    clip_found(db.clips, db.clip_seq, i);
}

/// Restoring takes the clip with that number out of the recycle bin and touches
/// nothing else of the store.
pub proof fn restoring_shows_one_clip(db: DbView, id: int, i: int)
    requires
        0 <= i < db.clips.len(),
    ensures
        ({
            let a = db.restore_clip(id);
            let c = db.clips[i];
            &&& a == (DbView { clips: a.clips, ..db })
            &&& a.clips.len() == db.clips.len()
            &&& a.clips[i] == if c.id == id {
                ClipView { is_deleted: false, ..c }
            } else {
                c
            }
        }),
{
}

/// Deleting for good takes the clip with that number out of the store; every
/// other clip stays as it was, in its order, and other devices are told of the
/// deletion.
pub proof fn deleting_for_good_takes_one_clip(db: DbView, id: int, timestamp: int, physical: int, i: int)
    requires
        db.wf(),
        0 <= i < db.clips.len(),
        db.clips[i].id == id,
    ensures
        ({
            let (a, r) = db.permanently_delete_clip(id, timestamp, physical);
            let c = db.clips[i];
            &&& rest_stays(db, a) && a.clip_seq == db.clip_seq
            &&& c.uuid is None ==> r == Err::<(), DbError>(DbError::MissingUuid) && a == db
            &&& c.uuid is Some ==> r is Ok && a.clips == db.clips.remove(i)
            &&& c.uuid is Some && db.event_seq < i64::MAX ==> noted_event(
                db,
                a,
                "DELETE"@,
                c.uuid->0,
                timestamp,
                physical,
                false,
                None,
            )
            &&& c.uuid is Some && db.event_seq == i64::MAX ==> a.events == db.events
        }),
{
    next_clock_is_smallest(db.events, physical);
    clip_found(db.clips, db.clip_seq, i);
    let other = |c: ClipView| c.id != id;
    let front = db.clips.take(i);
    let back = db.clips.skip(i + 1);
    assert(db.clips =~= front + (seq![db.clips[i]] + back));
    Seq::filter_distributes_over_add(front, seq![db.clips[i]] + back, other);
    Seq::filter_distributes_over_add(seq![db.clips[i]], back, other);
    assert forall|k: int| 0 <= k < front.len() implies other(#[trigger] front[k]) by {
        assert(db.clips[k].id < db.clips[i].id);
    }
    assert forall|k: int| 0 <= k < back.len() implies other(#[trigger] back[k]) by {
        assert(db.clips[i].id < db.clips[i + 1 + k].id);
    }
    seqs::filter_all(front, other);
    seqs::filter_all(back, other);
    assert(seq![db.clips[i]].filter(other) =~= Seq::<ClipView>::empty()) by {
        if seq![db.clips[i]].filter(other).len() > 0 {
            let k = seqs::filter_origin(seq![db.clips[i]], other, 0);
        }
    }
    assert(db.clips.filter(other) =~= front + back);
    assert(db.clips.remove(i) =~= front + back);
}

/// Clearing the history marks every clip as deleted that is not locked, and the
/// locked ones too where asked; nothing else of any clip changes.
pub proof fn clearing_hides_what_is_not_locked(db: DbView, delete_locked: bool, timestamp: int, physical: int, i: int)
    requires
        0 <= i < db.clips.len(),
    ensures
        ({
            let (a, r) = db.clear_all(delete_locked, timestamp, physical);
            let c = db.clips[i];
            &&& rest_stays(db, a) && a.clip_seq == db.clip_seq && a.clips.len() == db.clips.len()
            &&& r is Ok ==> a.clips[i] == (ClipView { is_deleted: c.is_deleted || delete_locked || !c.is_locked, ..c })
            &&& r is Err ==> a == db && r == Err::<(), DbError>(DbError::MissingUuid)
            &&& r is Ok && (delete_locked || !c.is_locked) ==> c.uuid is Some
        }),
        (forall|k: int|
            0 <= k < db.clips.len() && (delete_locked || !(#[trigger] db.clips[k]).is_locked) ==> db.clips[k].uuid
                is Some) ==> db.clear_all(delete_locked, timestamp, physical).1 is Ok,
{
    let reached = db.clearable(delete_locked);
    let p = |c: ClipView| delete_locked || !c.is_locked;
    let marked = db.with_clips(model::changed(db.clips, p, |c: ClipView| ClipView { is_deleted: true, ..c }));
    crate::laws::deletions_touch_only_the_log(
        marked,
        reached.map_values(|c: ClipView| c.uuid->0),
        model::next_hlc(db.events, physical),
        timestamp,
    );
    if p(db.clips[i]) {
        let k = seqs::filter_keeps(db.clips, p, i);
        assert(reached[k] == db.clips[i]);
    }
    if forall|k: int|
        0 <= k < db.clips.len() && (delete_locked || !(#[trigger] db.clips[k]).is_locked) ==> db.clips[k].uuid is Some {
        assert forall|k: int| 0 <= k < reached.len() implies (#[trigger] reached[k]).uuid is Some by {
            let m = seqs::filter_origin(db.clips, p, k);
        }
    }
}

/// Every clip that clearing hides is told to other devices by one deletion, all
/// with the next clock, and nothing else is told.
pub proof fn clearing_is_told(db: DbView, delete_locked: bool, timestamp: int, physical: int, uuid: Seq<char>)
    requires
        db.clear_all(delete_locked, timestamp, physical).1 is Ok,
        db.event_seq + db.clips.len() <= i64::MAX,
    ensures
        ({
            let a = db.clear_all(delete_locked, timestamp, physical).0;
            let n = db.events.len() as int;
            let reached = exists|i: int|
                0 <= i < db.clips.len() && (#[trigger] db.clips[i]).uuid == Some(uuid) && (delete_locked
                    || !db.clips[i].is_locked);
            let told = exists|k: int| n <= k < a.events.len() && (#[trigger] a.events[k]).clip_uuid == uuid;
            &&& n <= a.events.len() && a.events.take(n) == db.events
            &&& reached <==> told
            &&& forall|k: int|
                n <= k < a.events.len() ==> (#[trigger] a.events[k]).event_type == "DELETE"@ && a.events[k].device_id
                    == db.device_id && a.events[k].timestamp == timestamp && a.events[k].payload is None
                    && is_next_clock(db.events, physical, a.events[k].vector_clock)
        }),
{
    let reached = db.clearable(delete_locked);
    let p = |c: ClipView| delete_locked || !c.is_locked;
    let uuids = reached.map_values(|c: ClipView| c.uuid->0);
    let marked = db.with_clips(model::changed(db.clips, p, |c: ClipView| ClipView { is_deleted: true, ..c }));
    let a = db.clear_all(delete_locked, timestamp, physical).0;
    let n = db.events.len() as int;
    let clock = model::next_hlc(db.events, physical);
    db.clips.lemma_filter_len(p);
    next_clock_is_smallest(db.events, physical);
    crate::laws::deletions_are_logged(marked, uuids, clock, timestamp);
    deletions_follow_the_log(marked, uuids, clock, timestamp);
    assert forall|k: int| n <= k < a.events.len() implies (#[trigger] a.events[k]).event_type == "DELETE"@
        && a.events[k].device_id == db.device_id && a.events[k].timestamp == timestamp && a.events[k].payload is None
        && is_next_clock(db.events, physical, a.events[k].vector_clock) by {
        let i = k - n;
        assert(uuids[i] == a.events[n + i].clip_uuid);
    }
    if exists|i: int|
        0 <= i < db.clips.len() && (#[trigger] db.clips[i]).uuid == Some(uuid) && (delete_locked
            || !db.clips[i].is_locked) {
        let i = choose|i: int|
            0 <= i < db.clips.len() && (#[trigger] db.clips[i]).uuid == Some(uuid) && (delete_locked
                || !db.clips[i].is_locked);
        let k = seqs::filter_keeps(db.clips, p, i);
        assert(uuids[k] == uuid);
        assert(a.events[n + k].clip_uuid == uuid);
    }
    if exists|k: int| n <= k < a.events.len() && (#[trigger] a.events[k]).clip_uuid == uuid {
        let k = choose|k: int| n <= k < a.events.len() && (#[trigger] a.events[k]).clip_uuid == uuid;
        assert(uuids[k - n] == a.events[n + (k - n)].clip_uuid);
        let i = seqs::filter_origin(db.clips, p, k - n);
        assert(reached[k - n].uuid is Some);
        assert(db.clips[i].uuid == Some(uuid));
    }
}

proof fn deletions_follow_the_log(db: DbView, uuids: Seq<Seq<char>>, clock: int, timestamp: int)
    ensures
        ({
            let a = db.deletions_noted(uuids, clock, timestamp);
            let n = db.events.len() as int;
            &&& n <= a.events.len()
            &&& a.events.take(n) == db.events
            &&& forall|k: int|
                n <= k < a.events.len() ==> (#[trigger] a.events[k]).timestamp == timestamp && a.events[k].payload is None
        }),
    decreases uuids.len(),
{
    let n = db.events.len() as int;
    if uuids.len() > 0 {
        let b = db.deletions_noted(uuids.drop_last(), clock, timestamp);
        let a = db.deletions_noted(uuids, clock, timestamp);
        deletions_follow_the_log(db, uuids.drop_last(), clock, timestamp);
        assert(a.events.take(n) =~= b.events.take(n));
    } else {
        assert(db.events.take(n) =~= db.events);
    }
}

/// Emptying the recycle bin takes the deleted clips out of the store, and no
/// other: those stay as they were, in their order.
pub proof fn emptying_takes_only_deleted_clips(db: DbView, c: ClipView)
    ensures
        ({
            let a = db.bin_emptied();
            &&& a == (DbView { clips: a.clips, ..db })
            &&& a.clips.contains(c) <==> db.clips.contains(c) && !c.is_deleted
            &&& db.wf() ==> forall|i: int, j: int| 0 <= i < j < a.clips.len() ==> (#[trigger] a.clips[i]).id < (
            #[trigger] a.clips[j]).id
        }),
{
    let live = |c: ClipView| !c.is_deleted;
    let a = db.bin_emptied();
    seqs::filter_membership(db.clips, live, c);
    if db.wf() {
        assert forall|i: int, j: int| 0 <= i < j < a.clips.len() implies (#[trigger] a.clips[i]).id < (
        #[trigger] a.clips[j]).id by {
            let (x, y) = seqs::filter_keeps_order(db.clips, live, i, j);
            assert(db.clips[x].id < db.clips[y].id);
        }
    }
}

/// Marking the clips with a digest sets the one mark on just those clips, and
/// tells nobody; unlocking all does so to every clip.
pub proof fn marking_by_digest_marks_those_clips(db: DbView, hash: Seq<char>, on: bool, i: int)
    requires
        0 <= i < db.clips.len(),
    ensures
        ({
            let c = db.clips[i];
            let reached = c.payload_hash == Some(hash);
            let l = db.locked_by_hash(hash, on);
            let p = db.pinned_by_hash(hash, on);
            let d = db.deleted_by_hash(hash);
            let u = db.unlocked();
            &&& l == (DbView { clips: l.clips, ..db }) && l.clips.len() == db.clips.len()
            &&& p == (DbView { clips: p.clips, ..db }) && p.clips.len() == db.clips.len()
            &&& d == (DbView { clips: d.clips, ..db }) && d.clips.len() == db.clips.len()
            &&& u == (DbView { clips: u.clips, ..db }) && u.clips.len() == db.clips.len()
            &&& l.clips[i] == (ClipView {
                is_locked: if reached {
                    on
                } else {
                    c.is_locked
                },
                ..c
            })
            &&& p.clips[i] == (ClipView {
                pinned: if reached {
                    on
                } else {
                    c.pinned
                },
                ..c
            })
            &&& d.clips[i] == (ClipView { is_deleted: c.is_deleted || reached, ..c })
            &&& u.clips[i] == (ClipView { is_locked: false, ..c })
        }),
{
}

/// Once the clips with a digest were locked or unlocked, that is what is said of
/// the digest, if there is such a clip; of a digest that none has it is said
/// that it is not locked.
pub proof fn locked_digest_is_locked(before: DbView, after: Database, hash: &str, is_locked: bool, r: bool)
    requires
        after@ == before.locked_by_hash(hash@, is_locked),
        call_ensures(Database::is_locked_by_hash, (&after, hash), r),
    ensures
        r == (is_locked && exists|i: int|
            0 <= i < before.clips.len() && (#[trigger] before.clips[i]).payload_hash == Some(hash@)),
{
    let clips = after@.clips;
    assert forall|i: int| 0 <= i < clips.len() implies (#[trigger] clips[i]).payload_hash
        == before.clips[i].payload_hash && (clips[i].payload_hash == Some(hash@) ==> clips[i].is_locked == is_locked) by {}
    if r {
        let i = choose|i: int|
            0 <= i < clips.len() && (#[trigger] clips[i]).payload_hash == Some(hash@) && clips[i].is_locked && forall|
                j: int,
            |
                0 <= j < i ==> (#[trigger] clips[j]).payload_hash != Some(hash@);
        assert(before.clips[i].payload_hash == Some(hash@));
    }
    if is_locked && exists|i: int|
        0 <= i < before.clips.len() && (#[trigger] before.clips[i]).payload_hash == Some(hash@) {
        let i = choose|i: int|
            0 <= i < before.clips.len() && (#[trigger] before.clips[i]).payload_hash == Some(hash@);
        first_with_digest(clips, hash@, i);
    }
}

proof fn first_with_digest(clips: Seq<ClipView>, hash: Seq<char>, i: int)
    requires
        0 <= i < clips.len(),
        clips[i].payload_hash == Some(hash),
    ensures
        exists|k: int|
            0 <= k <= i && (#[trigger] clips[k]).payload_hash == Some(hash) && forall|j: int|
                0 <= j < k ==> (#[trigger] clips[j]).payload_hash != Some(hash),
    decreases i,
{
    if exists|j: int| 0 <= j < i && (#[trigger] clips[j]).payload_hash == Some(hash) {
        let j = choose|j: int| 0 <= j < i && (#[trigger] clips[j]).payload_hash == Some(hash);
        first_with_digest(clips, hash, j);
    }
}

} // verus!
