//! What holds of the history store as a whole.
use crate::db;
use crate::model;
use crate::model::{DbError, DbView};
use crate::seqs;
use crate::tables::{ClipView, EventView, SyncEventView, SyncStateView};
use crate::text;
use vstd::prelude::*;

pub mod changes;
pub mod handing_over;
pub mod rows;
pub mod taking_over;

verus! {

broadcast use vstd::seq_lib::group_seq_properties;

// ---------------------------------------------------------------------------
// Acknowledgements
// ---------------------------------------------------------------------------

/// What is acknowledged for an author and a peer; nothing where there is no
/// row.
pub open spec fn ack(states: Seq<SyncStateView>, author: Seq<char>, peer: Seq<char>) -> Option<int> {
    match model::state_at(states, author, peer) {
        Some(i) => Some(states[i].acknowledged_clock),
        None => None,
    }
}

pub proof fn state_found(states: Seq<SyncStateView>, i: int)
    requires
        model::states_unique(states),
        0 <= i < states.len(),
    ensures
        model::state_at(states, states[i].author_id, states[i].peer_id) == Some(i),
{
    let a = states[i].author_id;
    let p = states[i].peer_id;
    let k = choose|k: int| 0 <= k < states.len() && (#[trigger] states[k]).author_id == a && states[k].peer_id == p;
    assert(states[i].author_id == a && states[i].peer_id == p);
    if k < i {
        assert(states[k].author_id != states[i].author_id || states[k].peer_id != states[i].peer_id);
    } else if i < k {
        assert(states[i].author_id != states[k].author_id || states[i].peer_id != states[k].peer_id);
    }
}

/// Setting an acknowledgement sets that one and no other.
pub proof fn setting_a_state(db: DbView, author: Seq<char>, peer: Seq<char>, clock: int)
    requires
        model::states_unique(db.states),
    ensures
        model::states_unique(db.with_state(author, peer, clock).states),
        ack(db.with_state(author, peer, clock).states, author, peer) == Some(clock),
        forall|a: Seq<char>, p: Seq<char>|
            a != author || p != peer ==> #[trigger] ack(db.with_state(author, peer, clock).states, a, p) == ack(
                db.states,
                a,
                p,
            ),
{
    let old_states = db.states;
    let new_states = db.with_state(author, peer, clock).states;
    let at = match model::state_at(old_states, author, peer) {
        Some(i) => i,
        None => old_states.len() as int,
    };
    assert forall|i: int, j: int| 0 <= i < j < new_states.len() implies (#[trigger] new_states[i]).author_id != (
    #[trigger] new_states[j]).author_id || new_states[i].peer_id != new_states[j].peer_id by {
        if j < old_states.len() {
            assert(old_states[i].author_id != old_states[j].author_id || old_states[i].peer_id
                != old_states[j].peer_id);
        } else {
            assert(new_states[i] == old_states[i]);
        }
    }
    assert(new_states[at].author_id == author && new_states[at].peer_id == peer);
    state_found(new_states, at);
    assert forall|a: Seq<char>, p: Seq<char>| a != author || p != peer implies #[trigger] ack(new_states, a, p) == ack(
        old_states,
        a,
        p,
    ) by {
        if model::state_at(old_states, a, p) is Some {
            let i = model::state_at(old_states, a, p)->0;
            assert(new_states[i] == old_states[i]);
            state_found(new_states, i);
        } else if model::state_at(new_states, a, p) is Some {
            let i = model::state_at(new_states, a, p)->0;
            assert(new_states[i] == old_states[i]);
            state_found(old_states, i);
        }
    }
}

/// Carrying out and recording an event touches no acknowledgement.
proof fn clips_and_log_keep_states(db: DbView, evt: SyncEventView)
    ensures
        db.carried_out(evt).0.states == db.states,
        db.carried_out(evt).0.device_id == db.device_id,
        db.carried_out(evt).0.recorded(evt).states == db.states,
        db.carried_out(evt).0.recorded(evt).device_id == db.device_id,
        db.recorded(evt).states == db.states,
        db.recorded(evt).device_id == db.device_id,
{
}

/// What an event does to acknowledgements: nothing where it is passed over or
/// fails; otherwise its author has been followed to its clock, and no other
/// author is touched.
pub proof fn event_acknowledges(db: DbView, evt: SyncEventView, now: int)
    requires
        model::states_unique(db.states),
    ensures
        ({
            let (a, r) = db.apply_event(evt, now);
            &&& a.device_id == db.device_id
            &&& model::states_unique(a.states)
            &&& db.passes_over(evt, now) ==> a == db && r is Ok
            &&& r is Err ==> a.states == db.states
            &&& r is Ok && !db.passes_over(evt, now) ==> a.acknowledged(evt.device_id) == evt.vector_clock
            &&& forall|author: Seq<char>| #[trigger] a.acknowledged(author) >= db.acknowledged(author)
            &&& forall|author: Seq<char>|
                author != evt.device_id ==> #[trigger] a.acknowledged(author) == db.acknowledged(author)
        }),
{
    if !db.passes_over(evt, now) {
        clips_and_log_keep_states(db, evt);
        let (a, r) = if db.is_latest(evt) {
            db.carried_out(evt)
        } else {
            (db, Ok(()))
        };
        if r is Ok {
            let b = a.recorded(evt);
            let upto = match model::state_at(b.states, evt.device_id, b.device_id) {
                Some(i) => model::larger(b.states[i].acknowledged_clock, evt.vector_clock),
                None => evt.vector_clock,
            };
            setting_a_state(b, evt.device_id, b.device_id, upto);
            let c = db.apply_event(evt, now).0;
            assert(c == b.with_state(evt.device_id, b.device_id, upto));
            assert(ack(c.states, evt.device_id, db.device_id) == Some(upto));
            assert forall|author: Seq<char>| author != evt.device_id implies #[trigger] c.acknowledged(author)
                == db.acknowledged(author) by {
                assert(ack(c.states, author, db.device_id) == ack(b.states, author, db.device_id));
            }
        }
    }
}

/// Following never goes back: taking over events leaves no author less
/// acknowledged than before.
pub proof fn acknowledgements_never_go_back(db: DbView, evts: Seq<SyncEventView>, now: int)
    requires
        model::states_unique(db.states),
    ensures
        ({
            let a = db.apply_sync_events(evts, now).0;
            &&& a.device_id == db.device_id
            &&& model::states_unique(a.states)
            &&& forall|author: Seq<char>| #[trigger] a.acknowledged(author) >= db.acknowledged(author)
        }),
    decreases evts.len(),
{
    if evts.len() > 0 {
        acknowledgements_never_go_back(db, evts.drop_last(), now);
        let (a, r) = db.apply_sync_events(evts.drop_last(), now);
        if r is Ok {
            event_acknowledges(a, evts.last(), now);
            let b = a.apply_event(evts.last(), now).0;
            assert forall|author: Seq<char>| #[trigger] b.acknowledged(author) >= db.acknowledged(author) by {
                assert(a.acknowledged(author) >= db.acknowledged(author));
            }
        }
    }
}

/// Once events have been taken over, each of them would be passed over.
pub proof fn taken_over_events_are_passed_over(db: DbView, evts: Seq<SyncEventView>, now: int)
    requires
        model::states_unique(db.states),
        db.apply_sync_events(evts, now).1 is Ok,
    ensures
        forall|i: int|
            0 <= i < evts.len() ==> db.apply_sync_events(evts, now).0.passes_over(#[trigger] evts[i], now),
    decreases evts.len(),
{
    if evts.len() > 0 {
        let front = evts.drop_last();
        let (a, r) = db.apply_sync_events(front, now);
        taken_over_events_are_passed_over(db, front, now);
        acknowledgements_never_go_back(db, front, now);
        event_acknowledges(a, evts.last(), now);
        let b = a.apply_event(evts.last(), now).0;
        assert forall|i: int| 0 <= i < evts.len() implies b.passes_over(#[trigger] evts[i], now) by {
            if i < front.len() {
                assert(front[i] == evts[i]);
                assert(a.passes_over(front[i], now));
                assert(b.acknowledged(evts[i].device_id) >= a.acknowledged(evts[i].device_id));
            } else {
                assert(b.acknowledged(evts[i].device_id) >= a.acknowledged(evts[i].device_id));
            }
        }
    }
}

/// How far an author is followed from a clock on by events: to the largest of
/// that clock and those of the author's events that are not stamped too far
/// ahead.
pub open spec fn followed_to(clock: int, evts: Seq<SyncEventView>, author: Seq<char>, now: int) -> int
    decreases evts.len(),
{
    if evts.len() == 0 {
        clock
    } else {
        let front = followed_to(clock, evts.drop_last(), author, now);
        let e = evts.last();
        if e.device_id == author && e.timestamp <= now + model::MAX_FUTURE {
            model::larger(front, e.vector_clock)
        } else {
            front
        }
    }
}

/// When events have been taken over, every author has been followed to the
/// largest clock among its events, unless it had been followed further, and
/// events stamped too far ahead do not count.
pub proof fn authors_are_followed(db: DbView, evts: Seq<SyncEventView>, now: int, author: Seq<char>)
    requires
        db.wf(),
        db.apply_sync_events(evts, now).1 is Ok,
    ensures
        db.apply_sync_events(evts, now).0.acknowledged(author) == followed_to(
            db.acknowledged(author),
            evts,
            author,
            now,
        ),
    decreases evts.len(),
{
    if evts.len() > 0 {
        let front = evts.drop_last();
        authors_are_followed(db, front, now, author);
        acknowledgements_never_go_back(db, front, now);
        let (a, _) = db.apply_sync_events(front, now);
        event_acknowledges(a, evts.last(), now);
    }
}

/// What an event does to the log: it grows by at most one row, and an event
/// that was carried out or found too old is there, as long as there is a row
/// number left.
proof fn event_is_logged(db: DbView, evt: SyncEventView, now: int)
    ensures
        ({
            let (a, r) = db.apply_event(evt, now);
            &&& a.event_seq <= db.event_seq + 1
            &&& db.events.len() <= a.events.len()
            &&& forall|k: int| 0 <= k < db.events.len() ==> #[trigger] a.events[k] == db.events[k]
            &&& r is Ok && !db.passes_over(evt, now) && db.event_seq < model::max_row() ==> model::logs(
                a.events,
                evt.clip_uuid,
                evt.device_id,
                evt.vector_clock,
            )
        }),
{
    let (a, r) = db.apply_event(evt, now);
    if r is Ok && !db.passes_over(evt, now) && db.event_seq < model::max_row() {
        if !model::logs(db.events, evt.clip_uuid, evt.device_id, evt.vector_clock) {
            let e = a.events[db.events.len() as int];
            assert(e.clip_uuid == evt.clip_uuid && e.device_id == evt.device_id && e.vector_clock == evt.vector_clock);
        }
    }
}

proof fn log_grows(db: DbView, evts: Seq<SyncEventView>, now: int)
    ensures
        db.apply_sync_events(evts, now).0.event_seq <= db.event_seq + evts.len(),
    decreases evts.len(),
{
    if evts.len() > 0 {
        log_grows(db, evts.drop_last(), now);
        event_is_logged(db.apply_sync_events(evts.drop_last(), now).0, evts.last(), now);
    }
}

/// When events have been taken over, each that was not passed over at its turn
/// is in the log, so that it can be handed on.
pub proof fn taken_over_events_are_logged(db: DbView, evts: Seq<SyncEventView>, now: int, i: int)
    requires
        db.apply_sync_events(evts, now).1 is Ok,
        db.event_seq + evts.len() <= model::max_row(),
        0 <= i < evts.len(),
        !db.apply_sync_events(evts.take(i), now).0.passes_over(evts[i], now),
    ensures
        model::logs(
            db.apply_sync_events(evts, now).0.events,
            evts[i].clip_uuid,
            evts[i].device_id,
            evts[i].vector_clock,
        ),
    decreases evts.len(),
{
    let front = evts.drop_last();
    let e = evts[i];
    let (a, _) = db.apply_sync_events(front, now);
    let b = a.apply_event(evts.last(), now).0;
    event_is_logged(a, evts.last(), now);
    if i < front.len() {
        assert(front.take(i) =~= evts.take(i));
        assert(front[i] == e);
        taken_over_events_are_logged(db, front, now, i);
        let k = choose|k: int|
            0 <= k < a.events.len() && (#[trigger] a.events[k]).clip_uuid == e.clip_uuid && a.events[k].device_id
                == e.device_id && a.events[k].vector_clock == e.vector_clock;
        assert(b.events[k] == a.events[k]);
    } else {
        assert(front =~= evts.take(i));
        log_grows(db, front, now);
    }
}

proof fn passed_over_events_change_nothing(db: DbView, evts: Seq<SyncEventView>, now: int)
    requires
        forall|i: int| 0 <= i < evts.len() ==> db.passes_over(#[trigger] evts[i], now),
    ensures
        db.apply_sync_events(evts, now) == (db, Ok::<(), DbError>(())),
    decreases evts.len(),
{
    if evts.len() > 0 {
        let front = evts.drop_last();
        assert forall|i: int| 0 <= i < front.len() implies db.passes_over(#[trigger] front[i], now) by {
            assert(front[i] == evts[i]);
        }
        passed_over_events_change_nothing(db, front, now);
        assert(db.passes_over(evts[evts.len() - 1], now));
    }
}

/// Taking over the same events again changes nothing.
pub proof fn applying_again_changes_nothing(db: DbView, evts: Seq<SyncEventView>, now: int)
    requires
        db.wf(),
        db.apply_sync_events(evts, now).1 is Ok,
    ensures
        ({
            let a = db.apply_sync_events(evts, now).0;
            a.apply_sync_events(evts, now) == (a, Ok::<(), DbError>(()))
        }),
{
    taken_over_events_are_passed_over(db, evts, now);
    passed_over_events_change_nothing(db.apply_sync_events(evts, now).0, evts, now);
}

/// The clocks that a device reports are what it has acknowledged.
pub proof fn reported_clocks_are_acknowledged(db: DbView, author: Seq<char>)
    ensures
        model::clock_for(db.sync_states(), author) == db.acknowledged(author),
{
}

/// One exchange catches a device up: when it has taken over all events that it
/// was missing, and none was stamped too far ahead, nothing is missing any
/// more.
pub proof fn one_exchange_catches_up(sender: DbView, receiver: DbView, limit: int, again: int, now: int)
    requires
        receiver.wf(),
        sender.events.len() <= limit,
        forall|i: int| 0 <= i < sender.events.len() ==> (#[trigger] sender.events[i]).timestamp <= now + model::MAX_FUTURE,
        receiver.apply_sync_events(sender.missing_events(receiver.sync_states(), limit), now).1 is Ok,
    ensures
        ({
            let after = receiver.apply_sync_events(sender.missing_events(receiver.sync_states(), limit), now).0;
            sender.missing_events(after.sync_states(), again) == Seq::<SyncEventView>::empty()
        }),
{
    let handed = sender.missing_events(receiver.sync_states(), limit);
    let after = receiver.apply_sync_events(handed, now).0;
    let p = |e: EventView| e.vector_clock > model::clock_for(receiver.sync_states(), e.device_id);
    let q = |e: EventView| e.vector_clock > model::clock_for(after.sync_states(), e.device_id);
    taken_over_events_are_passed_over(receiver, handed, now);
    acknowledgements_never_go_back(receiver, handed, now);
    let picked = sender.events.filter(p);
    sender.events.lemma_filter_len(p);
    assert(handed == model::all_handed_over(picked, sender.clips));
    assert forall|i: int| 0 <= i < sender.events.len() implies !q(#[trigger] sender.events[i]) by {
        let e = sender.events[i];
        reported_clocks_are_acknowledged(receiver, e.device_id);
        reported_clocks_are_acknowledged(after, e.device_id);
        assert(after.acknowledged(e.device_id) >= receiver.acknowledged(e.device_id));
        if p(e) {
            let k = seqs::filter_keeps(sender.events, p, i);
            assert(handed[k] == model::handed_over(e, sender.clips));
            assert(after.passes_over(handed[k], now));
        }
    }
    let left = sender.events.filter(q);
    if left.len() > 0 {
        let k = seqs::filter_origin(sender.events, q, 0);
        assert(false);
    }
    assert(model::all_handed_over(model::up_to(left, model::larger(again, 1)), sender.clips)
        =~= Seq::<SyncEventView>::empty());
}

/// The events handed out are the missing ones: each stands in the log and is
/// past the clock of its author, and there are at most as many as the limit
/// says, or one.
pub proof fn missing_events_are_missing(db: DbView, clocks: Map<Seq<char>, int>, limit: int, i: int)
    requires
        0 <= i < db.missing_events(clocks, limit).len(),
    ensures
        db.missing_events(clocks, limit).len() <= model::larger(limit, 1),
        ({
            let m = db.missing_events(clocks, limit)[i];
            &&& m.vector_clock > model::clock_for(clocks, m.device_id)
            &&& exists|k: int| 0 <= k < db.events.len() && m == model::handed_over(#[trigger] db.events[k], db.clips)
        }),
{
    let p = |e: EventView| e.vector_clock > model::clock_for(clocks, e.device_id);
    let all = db.events.filter(p);
    let some = model::up_to(all, model::larger(limit, 1));
    assert(some[i] == all[i]);
    let k = seqs::filter_origin(db.events, p, i);
    assert(db.missing_events(clocks, limit)[i] == model::handed_over(db.events[k], db.clips));
}

// ---------------------------------------------------------------------------
// Clips
// ---------------------------------------------------------------------------

/// Whether a clip is in the store, and in the recycle bin.
pub open spec fn in_recycle_bin(db: DbView, uuid: Seq<char>) -> bool {
    exists|i: int| 0 <= i < db.clips.len() && (#[trigger] db.clips[i]).uuid == Some(uuid) && db.clips[i].is_deleted
}

/// No event of another device brings a clip out of the recycle bin.
pub proof fn no_resurrection(db: DbView, evts: Seq<SyncEventView>, now: int, uuid: Seq<char>)
    requires
        in_recycle_bin(db, uuid),
    ensures
        in_recycle_bin(db.apply_sync_events(evts, now).0, uuid),
    decreases evts.len(),
{
    if evts.len() > 0 {
        no_resurrection(db, evts.drop_last(), now, uuid);
        let (a, r) = db.apply_sync_events(evts.drop_last(), now);
        if r is Ok {
            event_keeps_deleted(a, evts.last(), now, uuid);
        }
    }
}

proof fn event_keeps_deleted(db: DbView, evt: SyncEventView, now: int, uuid: Seq<char>)
    requires
        in_recycle_bin(db, uuid),
    ensures
        in_recycle_bin(db.apply_event(evt, now).0, uuid),
{
    let i = choose|i: int|
        0 <= i < db.clips.len() && (#[trigger] db.clips[i]).uuid == Some(uuid) && db.clips[i].is_deleted;
    let (a, _) = db.carried_out(evt);
    assert(a.clips[i].uuid == Some(uuid) && a.clips[i].is_deleted);
    let b = db.apply_event(evt, now).0;
    if b.clips == db.clips {
        assert(b.clips[i].uuid == Some(uuid) && b.clips[i].is_deleted);
    } else {
        assert(b.clips == a.clips);
        assert(b.clips[i].uuid == Some(uuid) && b.clips[i].is_deleted);
    }
}

/// A deletion that is later than all that is known of its clip, and not passed
/// over, puts the clip into the recycle bin, whether or not it was there.
pub proof fn latest_deletion_wins(db: DbView, evt: SyncEventView, now: int)
    requires
        db.clip_seq < model::max_row(),
        evt.event_type == "DELETE"@,
        !db.passes_over(evt, now),
        db.is_latest(evt),
    ensures
        in_recycle_bin(db.apply_event(evt, now).0, evt.clip_uuid),
{
    reveal_strlit("DELETE");
    reveal_strlit("INSERT");
    reveal_strlit("UPDATE");
    let a = db.carried_out(evt).0;
    assert("DELETE"@ != "INSERT"@) by {
        assert("DELETE"@[0] != "INSERT"@[0]);
    }
    assert("DELETE"@ != "UPDATE"@) by {
        assert("DELETE"@[0] != "UPDATE"@[0]);
    }
    assert(a == db.buried(evt.clip_uuid, evt.timestamp));
    match model::uuid_at(db.clips, evt.clip_uuid) {
        Some(i) => {
            assert(a.clips[i].uuid == Some(evt.clip_uuid) && a.clips[i].is_deleted);
        },
        None => {
            let i = db.clips.len() as int;
            assert(a.clips[i].uuid == Some(evt.clip_uuid) && a.clips[i].is_deleted);
        },
    }
    assert(db.apply_event(evt, now).0.clips == a.clips);
}

/// An event that is not the latest of its clip changes no clip.
pub proof fn stale_events_change_no_clip(db: DbView, evt: SyncEventView, now: int)
    requires
        !db.is_latest(evt),
    ensures
        db.apply_event(evt, now).0.clips == db.clips,
        db.apply_event(evt, now).0.clip_seq == db.clip_seq,
{
}

/// Events stamped more than an hour ahead change nothing at all.
pub proof fn events_from_the_future_are_ignored(db: DbView, evt: SyncEventView, now: int)
    requires
        evt.timestamp > now + model::MAX_FUTURE,
    ensures
        db.apply_event(evt, now) == (db, Ok::<(), DbError>(())),
{
}

/// Whatever the order in which a deletion and an earlier event of the same clip
/// arrive, the clip ends up in the recycle bin.
pub proof fn deletion_wins_in_either_order(db: DbView, evt: SyncEventView, del: SyncEventView, now: int)
    requires
        db.wf(),
        db.clip_seq + 1 < model::max_row(),
        del.event_type == "DELETE"@,
        del.clip_uuid == evt.clip_uuid,
        del.device_id == evt.device_id ==> evt.vector_clock < del.vector_clock,
        evt.timestamp < del.timestamp,
        !db.passes_over(del, now),
        !db.passes_over(evt, now),
        db.is_latest(del),
    ensures
        in_recycle_bin(db.apply_event(del, now).0.apply_event(evt, now).0, del.clip_uuid),
        in_recycle_bin(db.apply_event(evt, now).0.apply_event(del, now).0, del.clip_uuid),
{
    latest_deletion_wins(db, del, now);
    event_keeps_deleted(db.apply_event(del, now).0, evt, now, del.clip_uuid);
    let (a, r) = db.apply_event(evt, now);
    event_acknowledges(db, evt, now);
    clips_and_log_keep_states(db, evt);
    let (c, rc) = if db.is_latest(evt) {
        db.carried_out(evt)
    } else {
        (db, Ok(()))
    };
    assert(c.events == db.events);
    assert(rc is Ok);
    let b = c.recorded(evt);
    let upto = match model::state_at(b.states, evt.device_id, b.device_id) {
        Some(i) => model::larger(b.states[i].acknowledged_clock, evt.vector_clock),
        None => evt.vector_clock,
    };
    setting_a_state(b, evt.device_id, b.device_id, upto);
    if del.device_id != evt.device_id {
        assert(ack(a.states, del.device_id, db.device_id) == ack(db.states, del.device_id, db.device_id));
    }
    assert(!a.passes_over(del, now));
    assert(a.is_latest(del)) by {
        assert forall|i: int| 0 <= i < a.events.len() && (#[trigger] a.events[i]).clip_uuid == del.clip_uuid implies {
            ||| a.events[i].timestamp < del.timestamp
            ||| a.events[i].timestamp == del.timestamp && text::text_lt(a.events[i].device_id, del.device_id)
        } by {
            if i < db.events.len() {
                assert(a.events[i] == db.events[i]);
            }
        }
    }
    latest_deletion_wins(a, del, now);
}

/// Whether an event brings or replaces a clip with its content.
pub open spec fn writes_clip(evt: SyncEventView) -> bool {
    &&& evt.event_type == "INSERT"@ || evt.event_type == "UPDATE"@
    &&& evt.content_type is Some
    &&& evt.payload is Some
}

/// Whether a store knows nothing of a clip.
pub open spec fn unknown(db: DbView, uuid: Seq<char>) -> bool {
    &&& model::uuid_at(db.clips, uuid) is None
    &&& forall|k: int| 0 <= k < db.events.len() ==> (#[trigger] db.events[k]).clip_uuid != uuid
}

/// Whether an event is later than another: by its stamp, and by its device
/// where the stamps are equal.
pub open spec fn is_later(evt: SyncEventView, than: SyncEventView) -> bool {
    than.timestamp < evt.timestamp || than.timestamp == evt.timestamp && text::text_lt(than.device_id, evt.device_id)
}

/// The clip that an event brings, under a number. A mark that the event does
/// not state is not set.
pub open spec fn clip_of(evt: SyncEventView, id: int) -> ClipView {
    ClipView {
        id,
        uuid: Some(evt.clip_uuid),
        content_type: evt.content_type->0,
        encrypted_payload: evt.payload->0,
        timestamp: evt.timestamp,
        pinned: evt.pinned == Some(true),
        is_deleted: false,
        is_locked: evt.is_locked == Some(true),
        payload_hash: None,
        has_attachment: evt.has_attachment == Some(true),
        attachment_path: evt.attachment_path,
    }
}

/// A clip that was not known enters the history as its event brings it.
proof fn unknown_clip_arrives(db: DbView, evt: SyncEventView, now: int)
    requires
        db.clip_seq < model::max_row(),
        db.event_seq < model::max_row(),
        writes_clip(evt),
        unknown(db, evt.clip_uuid),
        !db.passes_over(evt, now),
    ensures
        ({
            let (a, r) = db.apply_event(evt, now);
            &&& r is Ok
            &&& a.clips == db.clips.push(clip_of(evt, db.clip_seq + 1))
            &&& a.clip_seq == db.clip_seq + 1
            &&& a.events.len() == db.events.len() + 1
            &&& a.events.drop_last() == db.events
            &&& a.events.last().clip_uuid == evt.clip_uuid
            &&& a.events.last().timestamp == evt.timestamp
            &&& a.events.last().device_id == evt.device_id
        }),
{
    assert(db.is_latest(evt));
    let (c, _) = db.carried_out(evt);
    assert(c == db.upserted(evt, evt.content_type->0, evt.payload));
    let a = db.apply_event(evt, now).0;
    assert(a.clips =~= db.clips.push(clip_of(evt, db.clip_seq + 1)));
    assert(a.events.drop_last() =~= db.events);
}

proof fn later_replaces_earlier(db: DbView, first: SyncEventView, second: SyncEventView, now: int)
    requires
        db.wf(),
        db.clip_seq + 2 <= model::max_row(),
        db.event_seq < model::max_row(),
        writes_clip(first),
        writes_clip(second),
        first.clip_uuid == second.clip_uuid,
        first.device_id != second.device_id,
        unknown(db, first.clip_uuid),
        !db.passes_over(first, now),
        !db.passes_over(second, now),
    ensures
        db.apply_sync_events(seq![first, second], now).1 is Ok,
        db.apply_sync_events(seq![first, second], now).0.clips == db.clips.push(
            clip_of(
                if is_later(second, first) {
                    second
                } else {
                    first
                },
                db.clip_seq + 1,
            ),
        ),
{
    unknown_clip_arrives(db, first, now);
    event_acknowledges(db, first, now);
    let a = db.apply_event(first, now).0;
    let n = db.clips.len() as int;
    let uuid = second.clip_uuid;
    assert(a.acknowledged(second.device_id) == db.acknowledged(second.device_id));
    assert(!a.passes_over(second, now));
    reveal_with_fuel(DbView::apply_sync_events, 3);
    let none = Seq::<SyncEventView>::empty();
    assert(seq![first, second].drop_last() =~= seq![first]);
    assert(seq![first].drop_last() =~= none);
    assert(db.apply_sync_events(seq![first], now) == db.apply_event(first, now));
    assert(db.apply_sync_events(seq![first, second], now) == a.apply_event(second, now));
    if is_later(second, first) {
        assert forall|k: int| 0 <= k < a.events.len() && (#[trigger] a.events[k]).clip_uuid == uuid implies {
            ||| a.events[k].timestamp < second.timestamp
            ||| a.events[k].timestamp == second.timestamp && text::text_lt(a.events[k].device_id, second.device_id)
        } by {
            if k < db.events.len() {
                assert(a.events.drop_last()[k] == db.events[k]);
            }
        }
        assert(a.is_latest(second));
        assert(a.clips[n].uuid == Some(uuid));
        let i = model::uuid_at(a.clips, uuid)->0;
        assert(i == n) by {
            if i < n {
                assert(db.clips[i].uuid == Some(uuid));
            }
        }
        let (c, _) = a.carried_out(second);
        assert(c == a.upserted(second, second.content_type->0, second.payload));
        assert(c.clips =~= db.clips.push(clip_of(second, db.clip_seq + 1)));
    } else {
        let last = a.events.len() - 1;
        assert(a.events[last].clip_uuid == uuid);
        assert(!a.is_latest(second));
    }
}

/// Whatever the order in which two devices' writes of one clip arrive, the clip
/// ends up as the later of the two brings it.
pub proof fn later_write_wins_in_either_order(db: DbView, evt: SyncEventView, other: SyncEventView, now: int)
    requires
        db.wf(),
        db.clip_seq + 2 <= model::max_row(),
        db.event_seq < model::max_row(),
        writes_clip(evt),
        writes_clip(other),
        evt.clip_uuid == other.clip_uuid,
        evt.device_id != other.device_id,
        unknown(db, evt.clip_uuid),
        !db.passes_over(evt, now),
        !db.passes_over(other, now),
    ensures
        ({
            let later = if is_later(evt, other) {
                evt
            } else {
                other
            };
            let clips = db.clips.push(clip_of(later, db.clip_seq + 1));
            let (a, r) = db.apply_sync_events(seq![evt, other], now);
            let (b, q) = db.apply_sync_events(seq![other, evt], now);
            r is Ok && q is Ok && a.clips == clips && b.clips == clips
        }),
{
    later_replaces_earlier(db, evt, other, now);
    later_replaces_earlier(db, other, evt, now);
    text::text_order_is_strict_and_total(evt.device_id, other.device_id, evt.device_id);
}

/// An event of a deleted clip is handed over as its deletion, without the
/// payload.
pub proof fn deleted_clips_are_handed_over_as_deletions(db: DbView, e: EventView)
    requires
        model::uuid_at(db.clips, e.clip_uuid) matches Some(i) && db.clips[i].is_deleted,
    ensures
        model::handed_over(e, db.clips).event_type == "DELETE"@,
        e.event_type != "DELETE"@ ==> model::handed_over(e, db.clips).payload is None,
{
}

// ---------------------------------------------------------------------------
// The device's own changes
// ---------------------------------------------------------------------------

/// The clock of the next event is not behind the machine's clock, and past
/// every clock in the log.
pub proof fn next_clock_is_past_all(events: Seq<EventView>, physical: int)
    ensures
        model::next_hlc(events, physical) >= physical,
        forall|i: int| 0 <= i < events.len() ==> (#[trigger] events[i]).vector_clock < model::next_hlc(events, physical),
{
    assert forall|i: int| 0 <= i < events.len() implies (#[trigger] events[i]).vector_clock < model::next_hlc(
        events,
        physical,
    ) by {
        db::max_clock_is_largest(events, i);
    }
}

/// A clip that was inserted is the newest of the history, with the content it
/// was given; the number that came back is that of its event.
pub proof fn inserted_clip_is_on_top(
    db: DbView,
    content_type: Seq<char>,
    payload: Seq<u8>,
    limit: int,
    has_attachment: bool,
    attachment_path: Option<Seq<char>>,
    hash: Seq<char>,
    uuid: Seq<char>,
    timestamp: int,
    physical: int,
)
    requires
        db.insert_clip(
            content_type,
            payload,
            limit,
            has_attachment,
            attachment_path,
            hash,
            uuid,
            timestamp,
            physical,
        ).1 is Ok,
    ensures
        ({
            let (a, r) = db.insert_clip(
                content_type,
                payload,
                limit,
                has_attachment,
                attachment_path,
                hash,
                uuid,
                timestamp,
                physical,
            );
            let live = model::live_clips(a.clips);
            &&& live.len() > 0
            &&& live.last().uuid == Some(uuid)
            &&& live.last().content_type == content_type
            &&& live.last().encrypted_payload == payload
            &&& live.last().has_attachment == has_attachment
            &&& live.last().attachment_path == attachment_path
            &&& a.events.last().clip_uuid == uuid
            &&& a.events.last().event_type == "INSERT"@
            &&& a.events.last().payload == Some(payload)
            &&& r == Ok::<int, DbError>(a.events.last().id)
        }),
{
    reveal(Seq::filter);
    let (a, r) = db.insert_clip(
        content_type,
        payload,
        limit,
        has_attachment,
        attachment_path,
        hash,
        uuid,
        timestamp,
        physical,
    );
    let kept = |c: ClipView| !(c.is_deleted && c.timestamp < timestamp - model::DELETED_AGE);
    let live = |c: ClipView| !c.is_deleted;
    let whole = db.appended(
        uuid,
        content_type,
        payload,
        timestamp,
        false,
        false,
        false,
        Some(hash),
        has_attachment,
        attachment_path,
    ).clips;
    let c = whole.last();
    assert(whole.drop_last() =~= db.clips);
    assert(a.clips == whole.filter(kept));
    assert(whole.filter(kept) == db.clips.filter(kept).push(c));
    assert(db.clips.filter(kept).push(c).drop_last() =~= db.clips.filter(kept));
    assert(a.clips.filter(live) == db.clips.filter(kept).filter(live).push(c));
}

/// A history that took a clip in keeps to its limit: no more clips than that
/// are neither pinned, locked nor deleted.
pub proof fn history_keeps_to_its_limit(
    db: DbView,
    content_type: Seq<char>,
    payload: Seq<u8>,
    limit: int,
    has_attachment: bool,
    attachment_path: Option<Seq<char>>,
    hash: Seq<char>,
    uuid: Seq<char>,
    timestamp: int,
    physical: int,
)
    requires
        db.insert_clip(
            content_type,
            payload,
            limit,
            has_attachment,
            attachment_path,
            hash,
            uuid,
            timestamp,
            physical,
        ).1 is Ok,
    ensures
        model::loose_clips(
            db.insert_clip(
                content_type,
                payload,
                limit,
                has_attachment,
                attachment_path,
                hash,
                uuid,
                timestamp,
                physical,
            ).0.clips,
        ).len() <= model::actual_limit(limit),
{
    let whole = db.appended(
        uuid,
        content_type,
        payload,
        timestamp,
        false,
        false,
        false,
        Some(hash),
        has_attachment,
        attachment_path,
    ).clips;
    fewer_are_left(
        whole,
        |c: ClipView| !(c.is_deleted && c.timestamp < timestamp - model::DELETED_AGE),
        |c: ClipView| !c.pinned && !c.is_locked && !c.is_deleted,
    );
}

/// The clips that are left of those kept, where all that are left are kept.
proof fn narrower_filter(clips: Seq<ClipView>, kept: spec_fn(ClipView) -> bool, left: spec_fn(ClipView) -> bool)
    requires
        forall|c: ClipView| #[trigger] left(c) ==> kept(c),
    ensures
        clips.filter(kept).filter(left) == clips.filter(left),
    decreases clips.len(),
{
    reveal(Seq::filter);
    if clips.len() > 0 {
        let front = clips.drop_last();
        narrower_filter(front, kept, left);
        if kept(clips.last()) {
            let some = front.filter(kept).push(clips.last());
            assert(some.drop_last() =~= front.filter(kept));
            assert(clips.filter(kept) == some);
        }
    }
}

/// A clip that enters the history drives no other out: every clip that was not
/// deleted stays as it was and where it was, and the new one stands behind them.
/// That holds too where the insertion is refused because the history is over
/// its limit.
pub proof fn insertion_leaves_live_clips_alone(
    db: DbView,
    content_type: Seq<char>,
    payload: Seq<u8>,
    limit: int,
    has_attachment: bool,
    attachment_path: Option<Seq<char>>,
    hash: Seq<char>,
    uuid: Seq<char>,
    timestamp: int,
    physical: int,
)
    ensures
        ({
            let (a, r) = db.insert_clip(
                content_type,
                payload,
                limit,
                has_attachment,
                attachment_path,
                hash,
                uuid,
                timestamp,
                physical,
            );
            let added = ClipView {
                id: db.clip_seq + 1,
                uuid: Some(uuid),
                content_type,
                encrypted_payload: payload,
                timestamp,
                pinned: false,
                is_deleted: false,
                is_locked: false,
                payload_hash: Some(hash),
                has_attachment,
                attachment_path,
            };
            r is Ok || r == Err::<int, DbError>(DbError::PayloadRequired) ==> model::live_clips(a.clips)
                == model::live_clips(db.clips).push(added)
        }),
{
    reveal(Seq::filter);
    let whole = db.appended(
        uuid,
        content_type,
        payload,
        timestamp,
        false,
        false,
        false,
        Some(hash),
        has_attachment,
        attachment_path,
    ).clips;
    assert(whole.drop_last() =~= db.clips);
    assert(model::live_clips(whole) == model::live_clips(db.clips).push(whole.last()));
    narrower_filter(
        whole,
        |c: ClipView| !(c.is_deleted && c.timestamp < timestamp - model::DELETED_AGE),
        |c: ClipView| !c.is_deleted,
    );
}

/// A successful insertion keeps to the limit, and touches no clip that was not
/// deleted.
pub proof fn insertion_keeps_to_limit(
    db: DbView,
    content_type: Seq<char>,
    payload: Seq<u8>,
    limit: int,
    has_attachment: bool,
    attachment_path: Option<Seq<char>>,
    hash: Seq<char>,
    uuid: Seq<char>,
    timestamp: int,
    physical: int,
)
    ensures
        ({
            let (a, r) = db.insert_clip(
                content_type,
                payload,
                limit,
                has_attachment,
                attachment_path,
                hash,
                uuid,
                timestamp,
                physical,
            );
            r is Ok ==> db::keeps_to_limit(db.clips, a.clips, limit)
        }),
{
    let (a, r) = db.insert_clip(
        content_type,
        payload,
        limit,
        has_attachment,
        attachment_path,
        hash,
        uuid,
        timestamp,
        physical,
    );
    if r is Ok {
        history_keeps_to_its_limit(
            db,
            content_type,
            payload,
            limit,
            has_attachment,
            attachment_path,
            hash,
            uuid,
            timestamp,
            physical,
        );
        insertion_leaves_live_clips_alone(
            db,
            content_type,
            payload,
            limit,
            has_attachment,
            attachment_path,
            hash,
            uuid,
            timestamp,
            physical,
        );
        assert(model::live_clips(a.clips).drop_last() =~= model::live_clips(db.clips));
    }
}

proof fn fewer_are_left(clips: Seq<ClipView>, kept: spec_fn(ClipView) -> bool, counted: spec_fn(ClipView) -> bool)
    ensures
        clips.filter(kept).filter(counted).len() <= clips.filter(counted).len(),
    decreases clips.len(),
{
    reveal(Seq::filter);
    if clips.len() > 0 {
        let front = clips.drop_last();
        fewer_are_left(front, kept, counted);
        if kept(clips.last()) {
            let left = front.filter(kept).push(clips.last());
            assert(left.drop_last() =~= front.filter(kept));
            assert(clips.filter(kept) == left);
        }
    }
}

/// A clip inserted on one device and handed over appears on another that does
/// not know it yet, with the same type, payload and attachment.
pub proof fn inserted_clip_reaches_others(
    sender: DbView,
    receiver: DbView,
    content_type: Seq<char>,
    payload: Seq<u8>,
    limit: int,
    has_attachment: bool,
    attachment_path: Option<Seq<char>>,
    hash: Seq<char>,
    uuid: Seq<char>,
    timestamp: int,
    physical: int,
    now: int,
)
    requires
        sender.wf(),
        sender.insert_clip(
            content_type,
            payload,
            limit,
            has_attachment,
            attachment_path,
            hash,
            uuid,
            timestamp,
            physical,
        ).1 is Ok,
        receiver.wf(),
        receiver.clip_seq < model::max_row(),
        model::uuid_at(receiver.clips, uuid) is None,
        forall|i: int| 0 <= i < receiver.events.len() ==> (#[trigger] receiver.events[i]).clip_uuid != uuid,
        timestamp <= now + model::MAX_FUTURE,
        model::next_hlc(sender.events, physical) > receiver.acknowledged(sender.device_id),
    ensures
        ({
            let a = sender.insert_clip(
                content_type,
                payload,
                limit,
                has_attachment,
                attachment_path,
                hash,
                uuid,
                timestamp,
                physical,
            ).0;
            let handed = model::handed_over(a.events.last(), a.clips);
            let (b, r) = receiver.apply_event(handed, now);
            &&& r is Ok
            &&& b.clips.len() == receiver.clips.len() + 1
            &&& b.clips.drop_last() == receiver.clips
            &&& b.clips.last().uuid == Some(uuid)
            &&& b.clips.last().content_type == content_type
            &&& b.clips.last().encrypted_payload == payload
            &&& b.clips.last().has_attachment == has_attachment
            &&& b.clips.last().attachment_path == attachment_path
            &&& b.clips.last().timestamp == timestamp
            &&& !b.clips.last().is_deleted
        }),
{
    let (a, r) = sender.insert_clip(
        content_type,
        payload,
        limit,
        has_attachment,
        attachment_path,
        hash,
        uuid,
        timestamp,
        physical,
    );
    inserted_clip_is_on_top(
        sender,
        content_type,
        payload,
        limit,
        has_attachment,
        attachment_path,
        hash,
        uuid,
        timestamp,
        physical,
    );
    let kept = |c: ClipView| !(c.is_deleted && c.timestamp < timestamp - model::DELETED_AGE);
    let whole = sender.appended(
        uuid,
        content_type,
        payload,
        timestamp,
        false,
        false,
        false,
        Some(hash),
        has_attachment,
        attachment_path,
    ).clips;
    let n = sender.clips.len() as int;
    let k = seqs::filter_keeps(whole, kept, n);
    assert(a.clips[k] == whole[n]);
    assert(model::uuid_at(a.clips, uuid) is Some);
    let i = model::uuid_at(a.clips, uuid)->0;
    assert(a.clips[i] == whole[n]) by {
        let j = seqs::filter_origin(whole, kept, i);
        if j < n {
            assert(whole[j] == sender.clips[j]);
            assert(model::uuid_at(sender.clips, uuid) is Some);
        }
    }
    let e = a.events.last();
    let handed = model::handed_over(e, a.clips);
    assert(handed.event_type == "INSERT"@);
    assert(handed.payload == Some(payload));
    assert(receiver.is_latest(handed));
    let b = receiver.apply_event(handed, now).0;
    assert(b.clips == receiver.upserted(handed, content_type, Some(payload)).clips);
    assert(b.clips.drop_last() =~= receiver.clips);
}

/// Whether an event brings a clip with its content, in the open or sealed.
pub open spec fn brings_clip(evt: SyncEventView) -> bool {
    evt.event_type == "INSERT"@ && evt.content_type is Some && evt.payload is Some
}

/// Whether a store can take over new clips: it knows none of them, none is
/// stamped too far ahead, it has not followed their authors past them, and each
/// author's come in the order of their clocks.
pub open spec fn all_new(db: DbView, evts: Seq<SyncEventView>, now: int) -> bool {
    &&& db.clip_seq + evts.len() <= model::max_row()
    &&& forall|i: int| 0 <= i < evts.len() ==> {
        let e = #[trigger] evts[i];
        &&& brings_clip(e)
        &&& !db.passes_over(e, now)
        &&& model::uuid_at(db.clips, e.clip_uuid) is None
        &&& forall|k: int| 0 <= k < db.events.len() ==> (#[trigger] db.events[k]).clip_uuid != e.clip_uuid
    }
    &&& forall|i: int, j: int|
        0 <= i < j < evts.len() ==> (#[trigger] evts[i]).clip_uuid != (#[trigger] evts[j]).clip_uuid
    &&& forall|i: int, j: int|
        0 <= i < j < evts.len() && (#[trigger] evts[i]).device_id == (#[trigger] evts[j]).device_id
            ==> evts[i].vector_clock < evts[j].vector_clock
}

/// Whether the clip that an event brings is at a place of the history.
pub open spec fn arrived(c: ClipView, evt: SyncEventView) -> bool {
    &&& c.uuid == Some(evt.clip_uuid)
    &&& Some(c.content_type) == evt.content_type
    &&& Some(c.encrypted_payload) == evt.payload
    &&& c.timestamp == evt.timestamp
    &&& c.has_attachment == (evt.has_attachment == Some(true))
    &&& c.attachment_path == evt.attachment_path
    &&& !c.is_deleted
}

/// A device that was away catches up: all clips that it does not know yet
/// appear behind its own, in the order in which they were handed over.
pub proof fn new_clips_all_arrive(db: DbView, evts: Seq<SyncEventView>, now: int)
    requires
        db.wf(),
        all_new(db, evts, now),
    ensures
        ({
            let (a, r) = db.apply_sync_events(evts, now);
            &&& r is Ok
            &&& a.clips.len() == db.clips.len() + evts.len()
            &&& a.clips.take(db.clips.len() as int) == db.clips
            &&& forall|i: int| 0 <= i < evts.len() ==> arrived(a.clips[db.clips.len() + i], #[trigger] evts[i])
        }),
{
    clips_arrive(db, evts, now);
}

proof fn clips_arrive(db: DbView, evts: Seq<SyncEventView>, now: int)
    requires
        model::states_unique(db.states),
        all_new(db, evts, now),
    ensures
        ({
            let (a, r) = db.apply_sync_events(evts, now);
            let n = db.clips.len() as int;
            &&& r is Ok
            &&& a.clip_seq == db.clip_seq + evts.len()
            &&& a.clips.len() == n + evts.len()
            &&& a.clips.take(n) == db.clips
            &&& forall|i: int| 0 <= i < evts.len() ==> arrived(a.clips[n + i], #[trigger] evts[i])
            &&& forall|k: int|
                0 <= k < a.events.len() ==> db.events.contains(#[trigger] a.events[k]) || exists|i: int|
                    0 <= i < evts.len() && (#[trigger] evts[i]).clip_uuid == a.events[k].clip_uuid
            &&& forall|d: Seq<char>| #[trigger]
                a.acknowledged(d) == db.acknowledged(d) || exists|i: int|
                    0 <= i < evts.len() && (#[trigger] evts[i]).device_id == d && evts[i].vector_clock == a.acknowledged(
                        d,
                    )
        }),
    decreases evts.len(),
{
    let n = db.clips.len() as int;
    if evts.len() == 0 {
        assert(db.clips.take(n) =~= db.clips);
        assert forall|k: int| 0 <= k < db.events.len() implies db.events.contains(#[trigger] db.events[k]) by {}
    } else {
        let front = evts.drop_last();
        let m = front.len() as int;
        let e = evts.last();
        assert forall|i: int| 0 <= i < front.len() implies front[i] == #[trigger] evts[i] by {}
        assert(all_new(db, front, now)) by {
            assert forall|i: int| 0 <= i < front.len() implies {
                let f = #[trigger] front[i];
                &&& brings_clip(f)
                &&& !db.passes_over(f, now)
                &&& model::uuid_at(db.clips, f.clip_uuid) is None
                &&& forall|k: int| 0 <= k < db.events.len() ==> (#[trigger] db.events[k]).clip_uuid != f.clip_uuid
            } by {
                assert(front[i] == evts[i]);
            }
            assert forall|i: int, j: int| 0 <= i < j < front.len() implies (#[trigger] front[i]).clip_uuid != (
            #[trigger] front[j]).clip_uuid by {
                assert(evts[i].clip_uuid != evts[j].clip_uuid);
            }
            assert forall|i: int, j: int|
                0 <= i < j < front.len() && (#[trigger] front[i]).device_id == (#[trigger] front[j]).device_id implies front[i].vector_clock
                < front[j].vector_clock by {
                assert(evts[i].device_id == evts[j].device_id);
            }
        }
        clips_arrive(db, front, now);
        acknowledgements_never_go_back(db, front, now);
        let (b, _) = db.apply_sync_events(front, now);
        assert(evts[m] == e);
        assert(!b.passes_over(e, now)) by {
            assert(b.acknowledged(e.device_id) == db.acknowledged(e.device_id) || exists|i: int|
                0 <= i < front.len() && (#[trigger] front[i]).device_id == e.device_id && front[i].vector_clock
                    == b.acknowledged(e.device_id));
            if b.acknowledged(e.device_id) != db.acknowledged(e.device_id) {
                let i = choose|i: int|
                    0 <= i < front.len() && (#[trigger] front[i]).device_id == e.device_id && front[i].vector_clock
                        == b.acknowledged(e.device_id);
                assert(evts[i].device_id == evts[m].device_id);
            }
        }
        assert forall|k: int| 0 <= k < b.events.len() implies (#[trigger] b.events[k]).clip_uuid != e.clip_uuid by {
            if db.events.contains(b.events[k]) {
                let q = choose|q: int| 0 <= q < db.events.len() && db.events[q] == b.events[k];
                assert(db.events[q].clip_uuid != evts[m].clip_uuid);
            } else {
                let i = choose|i: int| 0 <= i < front.len() && (#[trigger] front[i]).clip_uuid == b.events[k].clip_uuid;
                assert(evts[i].clip_uuid != evts[m].clip_uuid);
            }
        }
        assert(b.is_latest(e));
        assert forall|k: int| 0 <= k < b.clips.len() implies (#[trigger] b.clips[k]).uuid != Some(e.clip_uuid) by {
            if k < n {
                assert(b.clips.take(n)[k] == db.clips[k]);
                assert(model::uuid_at(db.clips, evts[m].clip_uuid) is None);
            } else {
                assert(arrived(b.clips[n + (k - n)], front[k - n]));
                assert(evts[k - n].clip_uuid != evts[m].clip_uuid);
            }
        }
        assert(model::uuid_at(b.clips, e.clip_uuid) is None);
        let (c, r) = b.carried_out(e);
        assert(c == b.upserted(e, e.content_type->0, e.payload));
        assert(r is Ok);
        event_acknowledges(b, e, now);
        let a = db.apply_sync_events(evts, now).0;
        assert(a.clips == c.clips);
        assert(c.clips == b.clips.push(c.clips.last()));
        assert(a.clips.take(n) =~= b.clips.take(n));
        assert forall|i: int| 0 <= i < evts.len() implies arrived(a.clips[n + i], #[trigger] evts[i]) by {
            if i < m {
                assert(arrived(b.clips[n + i], front[i]));
            }
        }
        assert forall|k: int| 0 <= k < a.events.len() implies db.events.contains(#[trigger] a.events[k]) || exists|i: int|
            0 <= i < evts.len() && (#[trigger] evts[i]).clip_uuid == a.events[k].clip_uuid by {
            if k < b.events.len() {
                assert(a.events[k] == b.events[k]);
                if !db.events.contains(b.events[k]) {
                    let i = choose|i: int|
                        0 <= i < front.len() && (#[trigger] front[i]).clip_uuid == b.events[k].clip_uuid;
                    assert(evts[i].clip_uuid == a.events[k].clip_uuid);
                }
            } else {
                assert(evts[m].clip_uuid == a.events[k].clip_uuid);
            }
        }
        assert forall|d: Seq<char>| #[trigger]
            a.acknowledged(d) == db.acknowledged(d) || exists|i: int|
                0 <= i < evts.len() && (#[trigger] evts[i]).device_id == d && evts[i].vector_clock == a.acknowledged(d) by {
            if d == e.device_id {
                assert(evts[m].device_id == d && evts[m].vector_clock == a.acknowledged(d));
            } else {
                assert(a.acknowledged(d) == b.acknowledged(d));
                if b.acknowledged(d) != db.acknowledged(d) {
                    let i = choose|i: int|
                        0 <= i < front.len() && (#[trigger] front[i]).device_id == d && front[i].vector_clock
                            == b.acknowledged(d);
                    assert(evts[i].device_id == d && evts[i].vector_clock == a.acknowledged(d));
                }
            }
        }
    }
}

/// A deletion on one device, handed over, puts the clip into the recycle bin of
/// another, if nothing later is known of the clip there.
pub proof fn deletion_reaches_others(
    sender: DbView,
    receiver: DbView,
    id: int,
    uuid: Seq<char>,
    timestamp: int,
    physical: int,
    now: int,
)
    requires
        sender.uuid_by_id(id) == Ok::<Option<Seq<char>>, DbError>(Some(uuid)),
        sender.event_seq < model::max_row(),
        receiver.clip_seq < model::max_row(),
        timestamp <= now + model::MAX_FUTURE,
        model::next_hlc(sender.events, physical) > receiver.acknowledged(sender.device_id),
        forall|i: int|
            0 <= i < receiver.events.len() && (#[trigger] receiver.events[i]).clip_uuid == uuid
                ==> receiver.events[i].timestamp < timestamp,
    ensures
        ({
            let a = sender.delete_clip(id, timestamp, physical).0;
            let handed = model::handed_over(a.events.last(), a.clips);
            &&& handed.event_type == "DELETE"@
            &&& in_recycle_bin(receiver.apply_event(handed, now).0, uuid)
        }),
        ({
            let a = sender.permanently_delete_clip(id, timestamp, physical).0;
            let handed = model::handed_over(a.events.last(), a.clips);
            &&& handed.event_type == "DELETE"@
            &&& in_recycle_bin(receiver.apply_event(handed, now).0, uuid)
        }),
{
    let a = sender.delete_clip(id, timestamp, physical).0;
    let handed = model::handed_over(a.events.last(), a.clips);
    assert(receiver.is_latest(handed));
    latest_deletion_wins(receiver, handed, now);
    let b = sender.permanently_delete_clip(id, timestamp, physical).0;
    let gone = model::handed_over(b.events.last(), b.clips);
    assert(receiver.is_latest(gone));
    latest_deletion_wins(receiver, gone, now);
}

/// A later pin, unpin or lock of another device is carried out: the clip has
/// the mark, and no other clip changes.
pub proof fn latest_mark_is_carried_out(db: DbView, evt: SyncEventView, now: int, i: int)
    requires
        !db.passes_over(evt, now),
        db.is_latest(evt),
        0 <= i < db.clips.len(),
    ensures
        ({
            let c = db.clips[i];
            let after = db.apply_event(evt, now).0.clips;
            let reached = c.uuid == Some(evt.clip_uuid);
            &&& evt.event_type == "PIN"@ ==> after.len() == db.clips.len() && after[i] == (ClipView {
                pinned: c.pinned || reached,
                ..c
            })
            &&& evt.event_type == "UNPIN"@ ==> after.len() == db.clips.len() && after[i] == (ClipView {
                pinned: c.pinned && !reached,
                ..c
            })
            &&& evt.event_type == "LOCK"@ ==> after.len() == db.clips.len() && after[i] == (ClipView {
                is_locked: c.is_locked || reached,
                ..c
            })
        }),
{
    reveal_strlit("DELETE");
    reveal_strlit("INSERT");
    reveal_strlit("UPDATE");
    reveal_strlit("PIN");
    reveal_strlit("UNPIN");
    reveal_strlit("LOCK");
    assert("PIN"@.len() == 3 && "UNPIN"@.len() == 5 && "LOCK"@.len() == 4);
    assert("INSERT"@.len() == 6 && "UPDATE"@.len() == 6 && "DELETE"@.len() == 6);
}

/// A restored clip is as it was before it was deleted, except that it is no
/// longer pinned; nothing else changes but the log.
pub proof fn restoring_undoes_deleting(db: DbView, id: int, timestamp: int, physical: int)
    requires
        forall|i: int| 0 <= i < db.clips.len() && (#[trigger] db.clips[i]).id == id ==> !db.clips[i].is_deleted,
    ensures
        db.delete_clip(id, timestamp, physical).0.restore_clip(id).clips == model::changed(
            db.clips,
            |c: ClipView| c.id == id,
            |c: ClipView| ClipView { pinned: false, ..c },
        ),
        db.delete_clip(id, timestamp, physical).0.restore_clip(id).states == db.states,
        db.delete_clip(id, timestamp, physical).0.restore_clip(id).peers == db.peers,
{
    assert(db.delete_clip(id, timestamp, physical).0.restore_clip(id).clips =~= model::changed(
        db.clips,
        |c: ClipView| c.id == id,
        |c: ClipView| ClipView { pinned: false, ..c },
    ));
}

/// A deleted clip is no longer in the history, and a deletion is told to other
/// devices if the clip has a uuid.
pub proof fn deleted_clip_is_hidden(db: DbView, id: int, timestamp: int, physical: int)
    requires
        db.wf(),
    ensures
        ({
            let a = db.delete_clip(id, timestamp, physical).0;
            &&& forall|i: int| 0 <= i < model::live_clips(a.clips).len() ==> (#[trigger] model::live_clips(a.clips)[i]).id != id
            &&& db.uuid_by_id(id) matches Ok(Some(uuid)) ==> (db.event_seq < model::max_row() ==> a.events.len()
                == db.events.len() + 1 && a.events.last().event_type == "DELETE"@ && a.events.last().clip_uuid == uuid)
        }),
{
    let a = db.delete_clip(id, timestamp, physical).0;
    let live = |c: ClipView| !c.is_deleted;
    assert forall|i: int| 0 <= i < model::live_clips(a.clips).len() implies (#[trigger] model::live_clips(a.clips)[i]).id
        != id by {
        let k = seqs::filter_origin(a.clips, live, i);
        assert(a.clips[k].id == db.clips[k].id);
    }
}

/// After the history was cleared only locked clips are left in it, and none
/// where locked ones were to go too.
pub proof fn cleared_history_keeps_only_locked(db: DbView, delete_locked: bool, timestamp: int, physical: int)
    requires
        db.clear_all(delete_locked, timestamp, physical).1 is Ok,
    ensures
        ({
            let live = model::live_clips(db.clear_all(delete_locked, timestamp, physical).0.clips);
            forall|i: int| 0 <= i < live.len() ==> (#[trigger] live[i]).is_locked && !delete_locked
        }),
{
    let a = db.clear_all(delete_locked, timestamp, physical).0;
    let reached = db.clearable(delete_locked);
    let marked = db.with_clips(
        model::changed(
            db.clips,
            |c: ClipView| delete_locked || !c.is_locked,
            |c: ClipView| ClipView { is_deleted: true, ..c },
        ),
    );
    deletions_touch_only_the_log(
        marked,
        reached.map_values(|c: ClipView| c.uuid->0),
        model::next_hlc(db.events, physical),
        timestamp,
    );
    let p = |c: ClipView| !c.is_deleted;
    let live = model::live_clips(a.clips);
    assert forall|i: int| 0 <= i < live.len() implies (#[trigger] live[i]).is_locked && !delete_locked by {
        let k = seqs::filter_origin(a.clips, p, i);
        assert(a.clips[k] == marked.clips[k]);
    }
}

/// Each clip that clearing reaches is told to be deleted, as long as there are
/// row numbers.
pub proof fn cleared_clips_are_told(db: DbView, delete_locked: bool, timestamp: int, physical: int, i: int)
    requires
        db.clear_all(delete_locked, timestamp, physical).1 is Ok,
        0 <= i < db.clearable(delete_locked).len(),
        db.event_seq + db.clearable(delete_locked).len() <= model::max_row(),
    ensures
        ({
            let (a, n) = (db.clear_all(delete_locked, timestamp, physical).0, db.events.len());
            let c = db.clearable(delete_locked)[i];
            &&& a.events.len() == n + db.clearable(delete_locked).len()
            &&& Some(a.events[n + i].clip_uuid) == c.uuid
            &&& a.events[n + i].event_type == "DELETE"@
            &&& a.events[n + i].device_id == db.device_id
            &&& a.events[n + i].vector_clock == model::next_hlc(db.events, physical)
        }),
{
    let reached = db.clearable(delete_locked);
    let uuids = reached.map_values(|c: ClipView| c.uuid->0);
    let marked = db.with_clips(
        model::changed(
            db.clips,
            |c: ClipView| delete_locked || !c.is_locked,
            |c: ClipView| ClipView { is_deleted: true, ..c },
        ),
    );
    deletions_are_logged(marked, uuids, model::next_hlc(db.events, physical), timestamp);
    assert(uuids[i] == reached[i].uuid->0);
    assert(reached[i].uuid is Some);
}

pub proof fn deletions_are_logged(db: DbView, uuids: Seq<Seq<char>>, clock: int, timestamp: int)
    requires
        db.event_seq + uuids.len() <= model::max_row(),
    ensures
        ({
            let a = db.deletions_noted(uuids, clock, timestamp);
            let n = db.events.len() as int;
            &&& a.device_id == db.device_id
            &&& a.event_seq == db.event_seq + uuids.len()
            &&& a.events.len() == n + uuids.len()
            &&& forall|i: int| 0 <= i < uuids.len() ==> {
                let e = a.events[n + i];
                &&& e.clip_uuid == #[trigger] uuids[i]
                &&& e.event_type == "DELETE"@
                &&& e.device_id == db.device_id
                &&& e.vector_clock == clock
            }
        }),
    decreases uuids.len(),
{
    if uuids.len() > 0 {
        let front = uuids.drop_last();
        deletions_are_logged(db, front, clock, timestamp);
        let a = db.deletions_noted(uuids, clock, timestamp);
        let b = db.deletions_noted(front, clock, timestamp);
        let n = db.events.len() as int;
        assert forall|i: int| 0 <= i < uuids.len() implies {
            let e = a.events[n + i];
            &&& e.clip_uuid == #[trigger] uuids[i]
            &&& e.event_type == "DELETE"@
            &&& e.device_id == db.device_id
            &&& e.vector_clock == clock
        } by {
            if i < front.len() {
                assert(a.events[n + i] == b.events[n + i]);
                assert(front[i] == uuids[i]);
            }
        }
    }
}

pub proof fn deletions_touch_only_the_log(db: DbView, uuids: Seq<Seq<char>>, clock: int, timestamp: int)
    ensures
        ({
            let a = db.deletions_noted(uuids, clock, timestamp);
            &&& a.clips == db.clips
            &&& a.clip_seq == db.clip_seq
            &&& a.states == db.states
            &&& a.peers == db.peers
            &&& a.device_id == db.device_id
        }),
    decreases uuids.len(),
{
    if uuids.len() > 0 {
        deletions_touch_only_the_log(db, uuids.drop_last(), clock, timestamp);
    }
}

/// An emptied recycle bin is empty, and the history is what it was.
pub proof fn emptied_bin_is_empty(db: DbView)
    ensures
        ({
            let a = db.with_clips(model::live_clips(db.clips));
            &&& model::deleted_clips(a.clips) == Seq::<ClipView>::empty()
            &&& model::live_clips(a.clips) == model::live_clips(db.clips)
        }),
{
    let live = |c: ClipView| !c.is_deleted;
    let gone = |c: ClipView| c.is_deleted;
    let l = model::live_clips(db.clips);
    assert forall|i: int| 0 <= i < l.len() implies live(#[trigger] l[i]) by {
        let k = seqs::filter_origin(db.clips, live, i);
    }
    seqs::filter_all(l, live);
    if l.filter(gone).len() > 0 {
        let k = seqs::filter_origin(l, gone, 0);
        assert(live(l[k]));
    }
    assert(l.filter(gone) =~= Seq::<ClipView>::empty());
}

/// A clip that was deleted for good is nowhere in the store.
pub proof fn permanently_deleted_clip_is_gone(db: DbView, id: int, timestamp: int, physical: int)
    requires
        db.permanently_delete_clip(id, timestamp, physical).1 is Ok,
    ensures
        model::clip_at(db.permanently_delete_clip(id, timestamp, physical).0.clips, id) is None,
{
    let a = db.permanently_delete_clip(id, timestamp, physical).0;
    let kept = |c: ClipView| c.id != id;
    assert forall|i: int| 0 <= i < a.clips.len() implies (#[trigger] a.clips[i]).id != id by {
        let k = seqs::filter_origin(db.clips, kept, i);
    }
}

/// Unlocking stays on this device: nothing is written to the log.
pub proof fn unlocking_is_local(db: DbView, id: int, timestamp: int, physical: int)
    ensures
        db.toggle_lock(id, false, timestamp, physical).0.events == db.events,
        db.toggle_lock(id, false, timestamp, physical).1 is Ok,
{
}

/// Only events that every acknowledging peer has followed are pruned, and only
/// those of this device.
pub proof fn pruned_events_were_acknowledged(db: DbView, i: int, j: int)
    requires
        0 <= i < db.events.len(),
        !db.pruned().events.contains(db.events[i]),
        0 <= j < db.states.len(),
        db.states[j].author_id == db.device_id,
    ensures
        db.events[i].device_id == db.device_id,
        db.events[i].vector_clock <= db.states[j].acknowledged_clock,
{
    let mine = |s: SyncStateView| s.author_id == db.device_id;
    let own = db.states.filter(mine);
    let upto = model::min_acknowledged(own);
    let kept = |e: EventView| !(e.vector_clock <= upto && e.device_id == db.device_id);
    if kept(db.events[i]) {
        let k = seqs::filter_keeps(db.events, kept, i);
        assert(db.pruned().events[k] == db.events[i]);
    }
    let k = seqs::filter_keeps(db.states, mine, j);
    min_acknowledged_is_smallest(own, k);
}

pub proof fn min_acknowledged_is_smallest(states: Seq<SyncStateView>, i: int)
    requires
        0 <= i < states.len(),
    ensures
        model::min_acknowledged(states) <= states[i].acknowledged_clock,
    decreases states.len(),
{
    if states.len() > 1 && i < states.len() - 1 {
        min_acknowledged_is_smallest(states.drop_last(), i);
    }
}

} // verus!
