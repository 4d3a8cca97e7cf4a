//! What an event of another device does to the store, clip by clip.
use crate::laws::changes::uuid_found;
use crate::model;
use crate::model::{DbError, DbView};
use crate::seqs;
use crate::tables::{ClipView, EventView, SyncEventView, SyncStateView};
use crate::text;
use vstd::prelude::*;

verus! {

broadcast use vstd::seq_lib::group_seq_properties;

/// Whether an event is news: it is stamped at most an hour ahead, and its clock
/// is past the one acknowledged for its author on this device, or past zero
/// where none is.
pub open spec fn is_news(db: DbView, evt: SyncEventView, now: int) -> bool {
    &&& evt.timestamp <= now + 3_600_000_000
    &&& forall|j: int|
        0 <= j < db.states.len() && (#[trigger] db.states[j]).author_id == evt.device_id && db.states[j].peer_id
            == db.device_id ==> db.states[j].acknowledged_clock < evt.vector_clock
    &&& (forall|j: int|
        0 <= j < db.states.len() ==> (#[trigger] db.states[j]).author_id != evt.device_id || db.states[j].peer_id
            != db.device_id) ==> evt.vector_clock > 0
}

/// Whether an event comes after all that the log holds of its clip: by the
/// stamp, and by the name of the device where the stamps are equal.
pub open spec fn comes_last(db: DbView, evt: SyncEventView) -> bool {
    forall|i: int|
        0 <= i < db.events.len() && (#[trigger] db.events[i]).clip_uuid == evt.clip_uuid ==> db.events[i].timestamp
            < evt.timestamp || (db.events[i].timestamp == evt.timestamp && text::text_lt(
            db.events[i].device_id,
            evt.device_id,
        ))
}

proof fn passing_over(db: DbView, evt: SyncEventView, now: int)
    requires
        model::states_unique(db.states),
    ensures
        db.passes_over(evt, now) == !is_news(db, evt, now),
{
    match model::state_at(db.states, evt.device_id, db.device_id) {
        Some(i) => {
            assert forall|j: int|
                0 <= j < db.states.len() && (#[trigger] db.states[j]).author_id == evt.device_id && db.states[j].peer_id
                    == db.device_id implies j == i by {
                if j < i {
                    assert(db.states[j].author_id != db.states[i].author_id || db.states[j].peer_id
                        != db.states[i].peer_id);
                } else if i < j {
                    assert(db.states[i].author_id != db.states[j].author_id || db.states[i].peer_id
                        != db.states[j].peer_id);
                }
            }
        },
        None => {},
    }
}

proof fn kinds_differ()
    ensures
        "INSERT"@ != "UPDATE"@,
        "INSERT"@ != "DELETE"@,
        "UPDATE"@ != "DELETE"@,
        "LOCK"@ != "PIN"@ && "LOCK"@ != "UNPIN"@ && "PIN"@ != "UNPIN"@,
        "LOCK"@ != "INSERT"@ && "LOCK"@ != "UPDATE"@ && "LOCK"@ != "DELETE"@,
        "PIN"@ != "INSERT"@ && "PIN"@ != "UPDATE"@ && "PIN"@ != "DELETE"@,
        "UNPIN"@ != "INSERT"@ && "UNPIN"@ != "UPDATE"@ && "UNPIN"@ != "DELETE"@,
{
    reveal_strlit("DELETE");
    reveal_strlit("INSERT");
    reveal_strlit("UPDATE");
    reveal_strlit("PIN");
    reveal_strlit("UNPIN");
    reveal_strlit("LOCK");
    assert("PIN"@.len() == 3 && "UNPIN"@.len() == 5 && "LOCK"@.len() == 4);
    assert("INSERT"@.len() == 6 && "UPDATE"@.len() == 6 && "DELETE"@.len() == 6);
    assert("INSERT"@[0] == 'I' && "UPDATE"@[0] == 'U' && "DELETE"@[0] == 'D');
}

/// What is no news changes nothing at all.
pub proof fn old_news_change_nothing(db: DbView, evt: SyncEventView, now: int)
    requires
        db.wf(),
        !is_news(db, evt, now),
    ensures
        db.apply_event(evt, now) == (db, Ok::<(), DbError>(())),
{
    passing_over(db, evt, now);
}

/// News that do not come last of their clip change no clip, but they are logged
/// and acknowledged.
pub proof fn late_news_change_no_clip(db: DbView, evt: SyncEventView, now: int)
    requires
        db.wf(),
        !comes_last(db, evt),
    ensures
        db.apply_event(evt, now).0.clips == db.clips,
        db.apply_event(evt, now).1 is Ok,
{
}

/// News are in the log afterwards, as they were told but for what was not said
/// of an attachment, which counts as none; an entry of the same clip, device and
/// clock that was there before stands for them. Nothing else in the log changes.
pub proof fn news_are_logged_as_told(db: DbView, evt: SyncEventView, now: int)
    requires
        db.wf(),
        is_news(db, evt, now),
        db.event_seq < i64::MAX,
        db.apply_event(evt, now).1 is Ok,
    ensures
        ({
            let a = db.apply_event(evt, now).0;
            let known = exists|i: int|
                0 <= i < db.events.len() && (#[trigger] db.events[i]).clip_uuid == evt.clip_uuid
                    && db.events[i].device_id == evt.device_id && db.events[i].vector_clock == evt.vector_clock;
            &&& known ==> a.events == db.events
            &&& !known ==> a.events == db.events.push(
                EventView {
                    id: db.event_seq + 1,
                    event_type: evt.event_type,
                    clip_uuid: evt.clip_uuid,
                    device_id: evt.device_id,
                    vector_clock: evt.vector_clock,
                    timestamp: evt.timestamp,
                    content_type: evt.content_type,
                    payload: evt.payload,
                    has_attachment: Some(evt.has_attachment == Some(true)),
                    attachment_path: evt.attachment_path,
                },
            )
        }),
{
    passing_over(db, evt, now);
    let (c, _) = if db.is_latest(evt) {
        db.carried_out(evt)
    } else {
        (db, Ok::<(), DbError>(()))
    };
    assert(c.events == db.events && c.event_seq == db.event_seq);
}

/// News are acknowledged for their author, up to their clock, and for nobody
/// else; who is known stays as it was, and so does the name of this device.
pub proof fn news_are_acknowledged(db: DbView, evt: SyncEventView, now: int, author: Seq<char>, peer: Seq<char>)
    requires
        db.wf(),
        is_news(db, evt, now),
        db.apply_event(evt, now).1 is Ok,
    ensures
        ({
            let a = db.apply_event(evt, now).0;
            let mine = author == evt.device_id && peer == db.device_id;
            &&& a.peers == db.peers && a.device_id == db.device_id
            &&& forall|s: SyncStateView| #![trigger a.states.contains(s)]
                s.author_id == author && s.peer_id == peer ==> (a.states.contains(s) <==> if mine {
                    s.acknowledged_clock == evt.vector_clock
                } else {
                    db.states.contains(s)
                })
        }),
{
    passing_over(db, evt, now);
    crate::laws::event_acknowledges(db, evt, now);
    let a = db.apply_event(evt, now).0;
    let (c, _) = if db.is_latest(evt) {
        db.carried_out(evt)
    } else {
        (db, Ok::<(), DbError>(()))
    };
    let b = c.recorded(evt);
    assert(b.states == db.states && b.device_id == db.device_id && b.peers == db.peers);
    let at = model::state_at(db.states, evt.device_id, db.device_id);
    let row = SyncStateView { author_id: evt.device_id, peer_id: db.device_id, acknowledged_clock: evt.vector_clock };
    match at {
        Some(i) => {
            assert(a.states =~= db.states.update(i, row));
        },
        None => {
            assert(a.states =~= db.states.push(row));
        },
    }
    assert forall|s: SyncStateView| #![trigger a.states.contains(s)]
        s.author_id == author && s.peer_id == peer implies (a.states.contains(s) <==> if author == evt.device_id && peer
        == db.device_id {
        s.acknowledged_clock == evt.vector_clock
    } else {
        db.states.contains(s)
    }) by {
        let n = match at {
            Some(i) => i,
            None => db.states.len() as int,
        };
        assert(a.states[n] == row);
        if a.states.contains(s) {
            let k = choose|k: int| 0 <= k < a.states.len() && a.states[k] == s;
            if k != n {
                assert(a.states[k] == db.states[k]);
                if author == evt.device_id && peer == db.device_id && at is Some {
                    if k < n {
                        assert(db.states[k].author_id != db.states[n].author_id || db.states[k].peer_id
                            != db.states[n].peer_id);
                    } else {
                        assert(db.states[n].author_id != db.states[k].author_id || db.states[n].peer_id
                            != db.states[k].peer_id);
                    }
                }
            }
        }
        if db.states.contains(s) && !(author == evt.device_id && peer == db.device_id) {
            let k = choose|k: int| 0 <= k < db.states.len() && db.states[k] == s;
            assert(a.states[k] == s);
        }
    }
}

// ---------------------------------------------------------------------------
// Deletions
// ---------------------------------------------------------------------------

/// A deletion of a clip that is here marks that clip as deleted. Everything else
/// of it stays, its number, uuid, type, payload, stamp, pin, lock, digest and
/// attachment, and every other clip stays whole; restoring the clip therefore
/// gives the clips that were there before.
pub proof fn told_deletion_only_marks_the_clip(db: DbView, evt: SyncEventView, now: int, i: int)
    requires
        db.wf(),
        db.clip_seq < i64::MAX,
        is_news(db, evt, now),
        comes_last(db, evt),
        evt.event_type == "DELETE"@,
        0 <= i < db.clips.len(),
        db.clips[i].uuid == Some(evt.clip_uuid),
    ensures
        ({
            let (a, r) = db.apply_event(evt, now);
            &&& r is Ok
            &&& a.clips.len() == db.clips.len()
            &&& a.clips[i].is_deleted
            &&& a.clips[i].id == db.clips[i].id && a.clips[i].uuid == db.clips[i].uuid
            &&& a.clips[i].content_type == db.clips[i].content_type
            &&& a.clips[i].encrypted_payload == db.clips[i].encrypted_payload
            &&& a.clips[i].timestamp == db.clips[i].timestamp
            &&& a.clips[i].pinned == db.clips[i].pinned && a.clips[i].is_locked == db.clips[i].is_locked
            &&& a.clips[i].payload_hash == db.clips[i].payload_hash
            &&& a.clips[i].has_attachment == db.clips[i].has_attachment
            &&& a.clips[i].attachment_path == db.clips[i].attachment_path
            &&& forall|k: int| 0 <= k < db.clips.len() && k != i ==> #[trigger] a.clips[k] == db.clips[k]
            &&& !db.clips[i].is_deleted ==> a.restore_clip(db.clips[i].id).clips == db.clips
        }),
{
    passing_over(db, evt, now);
    kinds_differ();
    uuid_found(db.clips, db.clip_seq, i);
    let a = db.apply_event(evt, now).0;
    assert(a.clips =~= db.buried(evt.clip_uuid, evt.timestamp).clips);
    if !db.clips[i].is_deleted {
        let back = a.restore_clip(db.clips[i].id).clips;
        assert forall|k: int| 0 <= k < db.clips.len() implies #[trigger] back[k] == db.clips[k] by {
            if k < i {
                assert(db.clips[k].id < db.clips[i].id);
            } else if i < k {
                assert(db.clips[i].id < db.clips[k].id);
            }
        }
        assert(back =~= db.clips);
    }
}

/// A deletion of a clip that is not here leaves a clip without content in the
/// recycle bin, so that the clip cannot come back; every other clip stays whole.
pub proof fn told_deletion_of_an_unknown_clip(db: DbView, evt: SyncEventView, now: int)
    requires
        db.wf(),
        db.clip_seq < i64::MAX,
        is_news(db, evt, now),
        comes_last(db, evt),
        evt.event_type == "DELETE"@,
        forall|i: int| 0 <= i < db.clips.len() ==> (#[trigger] db.clips[i]).uuid != Some(evt.clip_uuid),
    ensures
        db.apply_event(evt, now).1 is Ok,
        db.apply_event(evt, now).0.clips == db.clips.push(
            ClipView {
                id: db.clip_seq + 1,
                uuid: Some(evt.clip_uuid),
                content_type: "text"@,
                encrypted_payload: Seq::empty(),
                timestamp: evt.timestamp,
                pinned: false,
                is_deleted: true,
                is_locked: false,
                payload_hash: None,
                has_attachment: false,
                attachment_path: None,
            },
        ),
{
    passing_over(db, evt, now);
    kinds_differ();
}

// ---------------------------------------------------------------------------
// Writes
// ---------------------------------------------------------------------------

/// Whether an event writes a clip: it brings or replaces one, says of what type
/// it is, and has a payload or an attachment.
pub open spec fn has_content(evt: SyncEventView) -> bool {
    &&& evt.event_type == "INSERT"@ || evt.event_type == "UPDATE"@
    &&& evt.content_type is Some
    &&& evt.payload is Some || evt.has_attachment == Some(true)
}

/// A write of a clip that is here gives it the type, stamp, marks and attachment
/// of the event, and its payload where the event has one. Its number, uuid and
/// digest stay, and so does its place in the recycle bin or outside; every other
/// clip stays whole.
pub proof fn told_write_replaces_the_clip(db: DbView, evt: SyncEventView, now: int, i: int)
    requires
        db.wf(),
        db.clip_seq < i64::MAX,
        is_news(db, evt, now),
        comes_last(db, evt),
        has_content(evt),
        0 <= i < db.clips.len(),
        db.clips[i].uuid == Some(evt.clip_uuid),
    ensures
        ({
            let (a, r) = db.apply_event(evt, now);
            &&& r is Ok
            &&& a.clips.len() == db.clips.len()
            &&& a.clips[i].id == db.clips[i].id && a.clips[i].uuid == db.clips[i].uuid
            &&& a.clips[i].is_deleted == db.clips[i].is_deleted
            &&& a.clips[i].payload_hash == db.clips[i].payload_hash
            &&& Some(a.clips[i].content_type) == evt.content_type
            &&& evt.payload is Some ==> Some(a.clips[i].encrypted_payload) == evt.payload
            &&& evt.payload is None ==> a.clips[i].encrypted_payload == db.clips[i].encrypted_payload
            &&& a.clips[i].timestamp == evt.timestamp
            &&& a.clips[i].pinned == (evt.pinned == Some(true))
            &&& a.clips[i].is_locked == (evt.is_locked == Some(true))
            &&& a.clips[i].has_attachment == (evt.has_attachment == Some(true))
            &&& a.clips[i].attachment_path == evt.attachment_path
            &&& forall|k: int| 0 <= k < db.clips.len() && k != i ==> #[trigger] a.clips[k] == db.clips[k]
        }),
{
    passing_over(db, evt, now);
    kinds_differ();
    uuid_found(db.clips, db.clip_seq, i);
}

/// A write of a clip that is not here puts it behind the others, as the event
/// brings it and not deleted; every other clip stays whole.
pub proof fn told_write_of_an_unknown_clip(db: DbView, evt: SyncEventView, now: int)
    requires
        db.wf(),
        db.clip_seq < i64::MAX,
        is_news(db, evt, now),
        comes_last(db, evt),
        has_content(evt),
        forall|i: int| 0 <= i < db.clips.len() ==> (#[trigger] db.clips[i]).uuid != Some(evt.clip_uuid),
    ensures
        db.apply_event(evt, now).1 is Ok,
        db.apply_event(evt, now).0.clips == db.clips.push(
            ClipView {
                id: db.clip_seq + 1,
                uuid: Some(evt.clip_uuid),
                content_type: evt.content_type->0,
                encrypted_payload: if evt.payload is Some {
                    evt.payload->0
                } else {
                    Seq::empty()
                },
                timestamp: evt.timestamp,
                pinned: evt.pinned == Some(true),
                is_deleted: false,
                is_locked: evt.is_locked == Some(true),
                payload_hash: None,
                has_attachment: evt.has_attachment == Some(true),
                attachment_path: evt.attachment_path,
            },
        ),
{
    passing_over(db, evt, now);
    kinds_differ();
    assert(db.carried_out(evt).0 == db.upserted(evt, evt.content_type->0, evt.payload));
    assert(db.apply_event(evt, now).0.clips =~= db.carried_out(evt).0.clips);
}

/// A write without content, and an event of a kind that is not known, change no
/// clip; a write for which no row number is left fails and changes nothing at
/// all. Nothing else fails.
pub proof fn told_events_without_effect(db: DbView, evt: SyncEventView, now: int)
    requires
        db.wf(),
        is_news(db, evt, now),
    ensures
        ({
            let (a, r) = db.apply_event(evt, now);
            let mark = evt.event_type == "LOCK"@ || evt.event_type == "PIN"@ || evt.event_type == "UNPIN"@;
            &&& !has_content(evt) && !mark && evt.event_type != "DELETE"@ ==> r is Ok && a.clips == db.clips
            &&& r is Err <==> has_content(evt) && comes_last(db, evt) && db.clip_seq == i64::MAX
            &&& r is Err ==> a == db && r == Err::<(), DbError>(DbError::Full)
        }),
{
    passing_over(db, evt, now);
    kinds_differ();
}

// ---------------------------------------------------------------------------
// Marks
// ---------------------------------------------------------------------------

/// A pin, unpin or lock sets that mark on the clip and touches nothing else of
/// it, and no other clip.
pub proof fn told_mark_sets_one_mark(db: DbView, evt: SyncEventView, now: int, i: int)
    requires
        db.wf(),
        is_news(db, evt, now),
        comes_last(db, evt),
        0 <= i < db.clips.len(),
    ensures
        ({
            let (a, r) = db.apply_event(evt, now);
            let c = db.clips[i];
            let reached = c.uuid == Some(evt.clip_uuid);
            let mark = evt.event_type == "LOCK"@ || evt.event_type == "PIN"@ || evt.event_type == "UNPIN"@;
            &&& mark ==> r is Ok && a.clips.len() == db.clips.len() && a.clip_seq == db.clip_seq
            &&& mark && !reached ==> a.clips[i] == c
            &&& reached && evt.event_type == "LOCK"@ ==> a.clips[i] == (ClipView { is_locked: true, ..c })
            &&& reached && evt.event_type == "PIN"@ ==> a.clips[i] == (ClipView { pinned: true, ..c })
            &&& reached && evt.event_type == "UNPIN"@ ==> a.clips[i] == (ClipView { pinned: false, ..c })
        }),
{
    passing_over(db, evt, now);
    kinds_differ();
}

// ---------------------------------------------------------------------------
// Lists
// ---------------------------------------------------------------------------

/// Events are taken over one after the other: none changes nothing, one is taken
/// over as such, and of two lists the second is taken over where the first
/// succeeded. What the first did stays in any case.
pub proof fn events_are_taken_over_in_order(
    db: DbView,
    first: Seq<SyncEventView>,
    second: Seq<SyncEventView>,
    evt: SyncEventView,
    now: int,
)
    ensures
        db.apply_sync_events(Seq::empty(), now) == (db, Ok::<(), DbError>(())),
        db.apply_sync_events(seq![evt], now) == db.apply_event(evt, now),
        ({
            let (a, r) = db.apply_sync_events(first, now);
            db.apply_sync_events(first + second, now) == if r is Ok {
                a.apply_sync_events(second, now)
            } else {
                (a, r)
            }
        }),
    decreases second.len(),
{
    assert(seq![evt].drop_last() =~= Seq::<SyncEventView>::empty());
    reveal_with_fuel(DbView::apply_sync_events, 2);
    if second.len() == 0 {
        assert(first + second =~= first);
    } else {
        events_are_taken_over_in_order(db, first, second.drop_last(), evt, now);
        assert((first + second).drop_last() =~= first + second.drop_last());
        assert((first + second).last() == second.last());
    }
}

} // verus!
