//! What a device hands to others, and what is left when it has.
use crate::db::Database;
use crate::laws::changes::uuid_found;
use crate::model;
use crate::model::DbView;
use crate::seqs;
use crate::sync;
use crate::tables;
use crate::tables::{ClipView, EventView, KnownPeerView, SyncEvent, SyncEventView, SyncStateView};
use vstd::prelude::*;

verus! {

broadcast use vstd::seq_lib::group_seq_properties;

// ---------------------------------------------------------------------------
// One event
// ---------------------------------------------------------------------------

/// An event is handed over with the clip, device, clock and stamp that the log
/// has for it.
pub proof fn handed_event_names_its_entry(e: EventView, clips: Seq<ClipView>)
    ensures
        ({
            let h = model::handed_over(e, clips);
            &&& h.clip_uuid == e.clip_uuid
            &&& h.device_id == e.device_id
            &&& h.vector_clock == e.vector_clock
            &&& h.timestamp == e.timestamp
        }),
{
}

/// An event of a clip that is here and not deleted, and every deletion, is
/// handed over under its own kind, with the content and attachment of its entry
/// where the entry has them and else with those of the clip, and with the pin
/// and the lock that the clip has now. Any other event of a deleted clip is
/// handed over as a deletion without a payload.
pub proof fn handed_event_shows_the_clip(e: EventView, clips: Seq<ClipView>, clip_seq: int, i: int)
    requires
        model::clips_wf(clips, clip_seq),
        0 <= i < clips.len(),
        clips[i].uuid == Some(e.clip_uuid),
    ensures
        ({
            let h = model::handed_over(e, clips);
            let c = clips[i];
            &&& h.event_type == if c.is_deleted {
                "DELETE"@
            } else {
                e.event_type
            }
            &&& e.content_type is Some ==> h.content_type == e.content_type
            &&& e.content_type is None ==> h.content_type == Some(c.content_type)
            &&& c.is_deleted && e.event_type != "DELETE"@ ==> h.payload is None
            &&& !(c.is_deleted && e.event_type != "DELETE"@) && e.payload is Some ==> h.payload == e.payload
            &&& !(c.is_deleted && e.event_type != "DELETE"@) && e.payload is None ==> h.payload == Some(
                c.encrypted_payload,
            )
            &&& e.has_attachment is Some ==> h.has_attachment == e.has_attachment
            &&& e.has_attachment is None ==> h.has_attachment == Some(c.has_attachment)
            &&& e.attachment_path is Some ==> h.attachment_path == e.attachment_path
            &&& e.attachment_path is None ==> h.attachment_path == c.attachment_path
            &&& h.pinned == Some(c.pinned)
            &&& h.is_locked == Some(c.is_locked)
        }),
{
    uuid_found(clips, clip_seq, i);
}

/// An event of a clip that is not here is handed over as its entry has it; what
/// is not said of an attachment counts as none.
pub proof fn handed_event_of_an_unknown_clip(e: EventView, clips: Seq<ClipView>)
    requires
        forall|i: int| 0 <= i < clips.len() ==> (#[trigger] clips[i]).uuid != Some(e.clip_uuid),
    ensures
        ({
            let h = model::handed_over(e, clips);
            &&& h.event_type == e.event_type
            &&& h.content_type == e.content_type
            &&& h.payload == e.payload
            &&& h.has_attachment == Some(e.has_attachment == Some(true))
            &&& h.attachment_path == e.attachment_path
            &&& h.pinned is None && h.is_locked is None
        }),
{
}

// ---------------------------------------------------------------------------
// Missing events
// ---------------------------------------------------------------------------

/// Whether an event is missing to a device with those clocks: it is past the
/// clock that the device has for its author, or past zero where it has none.
pub open spec fn is_missing(clocks: Map<Seq<char>, int>, e: EventView) -> bool {
    if clocks.dom().contains(e.device_id) {
        e.vector_clock > clocks[e.device_id]
    } else {
        e.vector_clock > 0
    }
}

/// Whether an event was handed out in some place of a list.
pub open spec fn is_handed_out(handed: Seq<SyncEventView>, e: EventView) -> bool {
    exists|i: int|
        0 <= i < handed.len() && (#[trigger] handed[i]).clip_uuid == e.clip_uuid && handed[i].device_id == e.device_id
            && handed[i].vector_clock == e.vector_clock
}

/// Where the events handed out stand in the log: an increasing list of places,
/// one for each, that holds every missing event up to the last.
pub proof fn handed_out_places(db: DbView, clocks: Map<Seq<char>, int>, limit: int) -> (places: Seq<int>)
    requires
        db.wf(),
    ensures
        ({
            let handed = db.missing_events(clocks, limit);
            &&& places.len() == handed.len()
            &&& forall|k: int|
                0 <= k < places.len() ==> 0 <= #[trigger] places[k] < db.events.len() && is_missing(
                    clocks,
                    db.events[places[k]],
                ) && handed[k] == model::handed_over(db.events[places[k]], db.clips)
            &&& forall|k: int, m: int| 0 <= k < m < places.len() ==> #[trigger] places[k] < #[trigger] places[m]
            &&& forall|j: int|
                0 <= j < db.events.len() && is_missing(clocks, #[trigger] db.events[j]) && !places.contains(j)
                    ==> handed.len() >= limit && handed.len() > 0 && places.last() < j
        }),
{
    let p = |e: EventView| e.vector_clock > model::clock_for(clocks, e.device_id);
    let all = db.events.filter(p);
    let most = model::larger(limit, 1);
    let handed = db.missing_events(clocks, limit);
    let at = filter_places(db.events, p);
    let places = if at.len() <= most {
        at
    } else {
        at.take(most)
    };
    assert forall|k: int| 0 <= k < places.len() implies 0 <= #[trigger] places[k] < db.events.len() && is_missing(
        clocks,
        db.events[places[k]],
    ) && handed[k] == model::handed_over(db.events[places[k]], db.clips) by {
        assert(places[k] == at[k]);
    }
    assert forall|k: int, m: int| 0 <= k < m < places.len() implies #[trigger] places[k] < #[trigger] places[m] by {
        assert(places[k] == at[k] && places[m] == at[m]);
    }
    assert forall|j: int|
        0 <= j < db.events.len() && is_missing(clocks, #[trigger] db.events[j]) && !places.contains(j) implies
        handed.len() >= limit && handed.len() > 0 && places.last() < j by {
        assert(at.contains(j));
        let k = choose|k: int| 0 <= k < at.len() && at[k] == j;
        if k < places.len() {
            assert(places[k] == j);
        }
        assert(at[places.len() - 1] < at[k]);
    }
    places
}

/// The places of the elements that are kept.
pub proof fn filter_places<A>(s: Seq<A>, p: spec_fn(A) -> bool) -> (places: Seq<int>)
    ensures
        places.len() == s.filter(p).len(),
        forall|k: int|
            0 <= k < places.len() ==> 0 <= #[trigger] places[k] < s.len() && p(s[places[k]]) && s.filter(p)[k]
                == s[places[k]],
        forall|k: int, m: int| 0 <= k < m < places.len() ==> #[trigger] places[k] < #[trigger] places[m],
        forall|j: int| 0 <= j < s.len() && p(#[trigger] s[j]) ==> places.contains(j),
    decreases s.len(),
{
    reveal(Seq::filter);
    if s.len() == 0 {
        Seq::empty()
    } else {
        let front = s.drop_last();
        let before = filter_places(front, p);
        let last = s.len() - 1;
        let places = if p(s.last()) {
            before.push(last)
        } else {
            before
        };
        assert forall|k: int| 0 <= k < places.len() implies 0 <= #[trigger] places[k] < s.len() && p(s[places[k]])
            && s.filter(p)[k] == s[places[k]] by {
            if k < before.len() {
                assert(places[k] == before[k]);
                assert(front[before[k]] == s[before[k]]);
            }
        }
        assert forall|k: int, m: int| 0 <= k < m < places.len() implies #[trigger] places[k] < #[trigger] places[m] by {
            assert(places[k] == before[k]);
            if m < before.len() {
                assert(places[m] == before[m]);
            }
        }
        assert forall|j: int| 0 <= j < s.len() && p(#[trigger] s[j]) implies places.contains(j) by {
            if j < last {
                assert(front[j] == s[j]);
                assert(before.contains(j));
                let k = choose|k: int| 0 <= k < before.len() && before[k] == j;
                assert(places[k] == j);
            } else {
                assert(places[before.len() as int] == j);
            }
        }
        places
    }
}

/// What is handed out leaves no gap: a missing event that stands before one that
/// is handed out is handed out too, and where fewer events than the limit are
/// handed out, none is missing any more. One missing event is always handed out.
pub proof fn missing_events_leave_no_gap(db: DbView, clocks: Map<Seq<char>, int>, limit: int, j: int)
    requires
        db.wf(),
        0 <= j < db.events.len(),
        is_missing(clocks, db.events[j]),
    ensures
        ({
            let handed = db.missing_events(clocks, limit);
            &&& handed.len() > 0
            &&& limit >= 1 ==> handed.len() <= limit
            &&& handed.len() < limit ==> is_handed_out(handed, db.events[j])
            &&& forall|k: int|
                j <= k < db.events.len() && is_handed_out(handed, #[trigger] db.events[k]) ==> is_handed_out(
                    handed,
                    db.events[j],
                )
        }),
{
    let handed = db.missing_events(clocks, limit);
    let places = handed_out_places(db, clocks, limit);
    if places.contains(j) {
        let m = choose|m: int| 0 <= m < places.len() && places[m] == j;
        assert(handed[m] == model::handed_over(db.events[j], db.clips));
        assert(is_handed_out(handed, db.events[j]));
    }
    assert forall|k: int| j <= k < db.events.len() && is_handed_out(handed, #[trigger] db.events[k]) implies is_handed_out(
        handed,
        db.events[j],
    ) by {
        handed_event_stands_there(db, clocks, limit, places, k);
        if !places.contains(j) {
            let m = choose|m: int| 0 <= m < places.len() && places[m] == k;
            if m < places.len() - 1 {
                assert(places[m] < places[places.len() - 1]);
            }
        }
    }
}

proof fn handed_event_stands_there(db: DbView, clocks: Map<Seq<char>, int>, limit: int, places: Seq<int>, k: int)
    requires
        db.wf(),
        0 <= k < db.events.len(),
        is_handed_out(db.missing_events(clocks, limit), db.events[k]),
        places.len() == db.missing_events(clocks, limit).len(),
        forall|m: int|
            0 <= m < places.len() ==> 0 <= #[trigger] places[m] < db.events.len() && db.missing_events(clocks, limit)[m]
                == model::handed_over(db.events[places[m]], db.clips),
    ensures
        places.contains(k),
{
    let handed = db.missing_events(clocks, limit);
    let e = db.events[k];
    let i = choose|i: int|
        0 <= i < handed.len() && (#[trigger] handed[i]).clip_uuid == e.clip_uuid && handed[i].device_id == e.device_id
            && handed[i].vector_clock == e.vector_clock;
    let q = places[i];
    assert(handed[i] == model::handed_over(db.events[q], db.clips));
    assert(model::same_event(db.events[q], e));
    if q < k {
        assert(!model::same_event(db.events[q], db.events[k]));
    } else if k < q {
        assert(!model::same_event(db.events[k], db.events[q]));
    }
    assert(places[i] == k);
}

/// The number that an answer holds: fifty missing events, or all where there are
/// fewer.
pub proof fn answers_hold_fifty_events(db: DbView, key: Seq<u8>, clocks: Map<Seq<char>, int>)
    ensures
        ({
            let missing = db.events.filter(|e: EventView| is_missing(clocks, e)).len();
            sync::answer(db, key, clocks).len() == if missing < 50 {
                missing as int
            } else {
                50
            }
        }),
{
    let p = |e: EventView| e.vector_clock > model::clock_for(clocks, e.device_id);
    let q = |e: EventView| is_missing(clocks, e);
    seqs::filter_agrees(db.events, p, q);
}

/// An answer tells of missing events only, in the order of the log, and leaves no
/// gap: a missing event that stands before one that is told is told too.
pub proof fn answers_leave_no_gap(db: DbView, key: Seq<u8>, clocks: Map<Seq<char>, int>, j: int, k: int)
    requires
        db.wf(),
        0 <= j <= k < db.events.len(),
        is_missing(clocks, db.events[j]),
        is_handed_out(sync::answer(db, key, clocks), db.events[k]),
    ensures
        is_handed_out(sync::answer(db, key, clocks), db.events[j]),
{
    answer_names_what_is_handed(db, key, clocks, db.events[k]);
    answer_names_what_is_handed(db, key, clocks, db.events[j]);
    missing_events_leave_no_gap(db, clocks, sync::ANSWERED as int, j);
}

proof fn answer_names_what_is_handed(db: DbView, key: Seq<u8>, clocks: Map<Seq<char>, int>, e: EventView)
    ensures
        is_handed_out(sync::answer(db, key, clocks), e) <==> is_handed_out(
            db.missing_events(clocks, sync::ANSWERED as int),
            e,
        ),
{
    let answer = sync::answer(db, key, clocks);
    let handed = db.missing_events(clocks, sync::ANSWERED as int);
    assert(answer.len() == handed.len());
    assert forall|i: int| 0 <= i < handed.len() implies (#[trigger] answer[i]).clip_uuid == handed[i].clip_uuid
        && answer[i].device_id == handed[i].device_id && answer[i].vector_clock == handed[i].vector_clock by {
        assert(answer[i] == sync::opened(key, handed[i]));
    }
    if is_handed_out(answer, e) {
        let i = choose|i: int|
            0 <= i < answer.len() && (#[trigger] answer[i]).clip_uuid == e.clip_uuid && answer[i].device_id
                == e.device_id && answer[i].vector_clock == e.vector_clock;
        assert(handed[i].clip_uuid == e.clip_uuid);
    }
    if is_handed_out(handed, e) {
        let i = choose|i: int|
            0 <= i < handed.len() && (#[trigger] handed[i]).clip_uuid == e.clip_uuid && handed[i].device_id
                == e.device_id && handed[i].vector_clock == e.vector_clock;
        assert(answer[i].clip_uuid == e.clip_uuid);
    }
}

/// What an answer tells is missing, and stands in the log in the same order.
pub proof fn answers_tell_missing_events(db: DbView, key: Seq<u8>, clocks: Map<Seq<char>, int>, i: int, j: int) -> (r: (
    int,
    int,
))
    requires
        db.wf(),
        0 <= i < j < sync::answer(db, key, clocks).len(),
    ensures
        0 <= r.0 < r.1 < db.events.len(),
        is_missing(clocks, db.events[r.0]),
        sync::answer(db, key, clocks)[i] == sync::opened(key, model::handed_over(db.events[r.0], db.clips)),
        sync::answer(db, key, clocks)[j] == sync::opened(key, model::handed_over(db.events[r.1], db.clips)),
{
    let places = handed_out_places(db, clocks, sync::ANSWERED as int);
    assert(places[i] < places[j]);
    (places[i], places[j])
}

/// Whether the clocks of each author rise along a log.
pub open spec fn clocks_rise(events: Seq<EventView>) -> bool {
    forall|i: int, j: int|
        0 <= i < j < events.len() && (#[trigger] events[i]).device_id == (#[trigger] events[j]).device_id
            ==> events[i].vector_clock < events[j].vector_clock
}

/// Whether a device that had some clocks and took over some events can have
/// other clocks afterwards: for each author the clock it had, or that of one of
/// the author's events.
pub open spec fn follows(before: Map<Seq<char>, int>, evts: Seq<SyncEventView>, after: Map<Seq<char>, int>) -> bool {
    forall|author: Seq<char>| #![trigger model::clock_for(after, author)]
        model::clock_for(after, author) == model::clock_for(before, author) || exists|i: int|
            0 <= i < evts.len() && (#[trigger] evts[i]).device_id == author && evts[i].vector_clock
                == model::clock_for(after, author)
}

/// A device that asks again and again, each time with the clocks it has come to,
/// until the answer is empty, has been told every event that it was missing at
/// first, if the clocks of each author rise along the log.
pub proof fn asking_until_empty_tells_all(db: DbView, key: Seq<u8>, clocks: Seq<Map<Seq<char>, int>>, k: int)
    requires
        db.wf(),
        clocks_rise(db.events),
        clocks.len() > 0,
        forall|m: int|
            0 <= m < clocks.len() - 1 ==> follows(#[trigger] clocks[m], sync::answer(db, key, clocks[m]), clocks[m + 1]),
        sync::answer(db, key, clocks.last()).len() == 0,
        0 <= k < db.events.len(),
        is_missing(clocks[0], db.events[k]),
    ensures
        exists|m: int|
            0 <= m < clocks.len() - 1 && is_handed_out(
                #[trigger] sync::answer(db, key, clocks[m]),
                db.events[k],
            ),
{
    if !(exists|m: int|
        0 <= m < clocks.len() - 1 && is_handed_out(#[trigger] sync::answer(db, key, clocks[m]), db.events[k])) {
        let n = clocks.len() - 1;
        still_missing(db, key, clocks, k, n);
        missing_events_leave_no_gap(db, clocks[n], sync::ANSWERED as int, k);
        assert(sync::answer(db, key, clocks[n]).len() == db.missing_events(clocks[n], sync::ANSWERED as int).len());
    }
}

proof fn still_missing(db: DbView, key: Seq<u8>, clocks: Seq<Map<Seq<char>, int>>, k: int, n: int)
    requires
        db.wf(),
        clocks_rise(db.events),
        0 <= n < clocks.len(),
        forall|m: int|
            0 <= m < clocks.len() - 1 ==> follows(#[trigger] clocks[m], sync::answer(db, key, clocks[m]), clocks[m + 1]),
        0 <= k < db.events.len(),
        is_missing(clocks[0], db.events[k]),
        forall|m: int|
            0 <= m < n ==> !is_handed_out(#[trigger] sync::answer(db, key, clocks[m]), db.events[k]),
    ensures
        is_missing(clocks[n], db.events[k]),
    decreases n,
{
    if n > 0 {
        let c = clocks[n - 1];
        let e = db.events[k];
        let answer = sync::answer(db, key, c);
        still_missing(db, key, clocks, k, n - 1);
        assert(follows(clocks[n - 1], answer, clocks[n - 1 + 1]));
        assert(!is_handed_out(sync::answer(db, key, clocks[n - 1]), e));
        let after = model::clock_for(clocks[n], e.device_id);
        if after != model::clock_for(c, e.device_id) {
            let i = choose|i: int|
                0 <= i < answer.len() && (#[trigger] answer[i]).device_id == e.device_id && answer[i].vector_clock
                    == after;
            let handed = db.missing_events(c, sync::ANSWERED as int);
            let places = handed_out_places(db, c, sync::ANSWERED as int);
            assert(answer[i] == sync::opened(key, handed[i]));
            let q = places[i];
            assert(handed[i] == model::handed_over(db.events[q], db.clips));
            answer_names_what_is_handed(db, key, c, e);
            if places.contains(k) {
                let m = choose|m: int| 0 <= m < places.len() && places[m] == k;
                assert(handed[m] == model::handed_over(e, db.clips));
                assert(is_handed_out(handed, e));
            }
            assert(places.last() < k);
            if i < places.len() - 1 {
                assert(places[i] < places[places.len() - 1]);
            }
            assert(db.events[q].vector_clock < db.events[k].vector_clock);
        }
    }
}

/// The clocks that a device has after it took over an answer are those that the
/// answer leads to.
pub proof fn taking_over_follows(receiver: DbView, evts: Seq<SyncEventView>, taken: Seq<SyncEventView>, now: int)
    requires
        receiver.wf(),
        receiver.apply_sync_events(taken, now).1 is Ok,
        taken.len() == evts.len(),
        forall|i: int|
            0 <= i < evts.len() ==> (#[trigger] taken[i]).device_id == evts[i].device_id && taken[i].vector_clock
                == evts[i].vector_clock,
    ensures
        follows(receiver.sync_states(), evts, receiver.apply_sync_events(taken, now).0.sync_states()),
{
    let after = receiver.apply_sync_events(taken, now).0;
    assert forall|author: Seq<char>| #![trigger model::clock_for(after.sync_states(), author)]
        model::clock_for(after.sync_states(), author) == model::clock_for(receiver.sync_states(), author) || exists|
            i: int,
        |
            0 <= i < evts.len() && (#[trigger] evts[i]).device_id == author && evts[i].vector_clock == model::clock_for(
                after.sync_states(),
                author,
            ) by {
        crate::laws::reported_clocks_are_acknowledged(after, author);
        crate::laws::reported_clocks_are_acknowledged(receiver, author);
        crate::laws::authors_are_followed(receiver, taken, now, author);
        let clock = receiver.acknowledged(author);
        if after.acknowledged(author) != clock {
            let i = followed_event(clock, taken, author, now);
            assert(evts[i].device_id == author);
        }
    }
}

proof fn followed_event(clock: int, evts: Seq<SyncEventView>, author: Seq<char>, now: int) -> (i: int)
    requires
        crate::laws::followed_to(clock, evts, author, now) != clock,
    ensures
        0 <= i < evts.len(),
        evts[i].device_id == author,
        evts[i].vector_clock == crate::laws::followed_to(clock, evts, author, now),
    decreases evts.len(),
{
    let front = evts.drop_last();
    if crate::laws::followed_to(clock, evts, author, now) == crate::laws::followed_to(clock, front, author, now) {
        followed_event(clock, front, author, now)
    } else {
        evts.len() - 1
    }
}

// ---------------------------------------------------------------------------
// Own events
// ---------------------------------------------------------------------------

/// The last events of a device are its own, as many as asked for or all, in the
/// order of the log, and none of its own behind one of them is left out.
pub proof fn recent_events_are_the_last(db: DbView, limit: int, i: int) -> (places: Seq<int>)
    requires
        limit >= 0,
    ensures
        ({
            let recent = db.recent_events(limit);
            let own = db.events.filter(|e: EventView| e.device_id == db.device_id);
            &&& recent.len() == if own.len() < limit {
                own.len() as int
            } else {
                limit
            }
            &&& places.len() == recent.len()
            &&& forall|k: int|
                0 <= k < places.len() ==> 0 <= #[trigger] places[k] < db.events.len() && db.events[places[k]].device_id
                    == db.device_id && recent[k] == model::handed_over(db.events[places[k]], db.clips)
            &&& forall|k: int, m: int| 0 <= k < m < places.len() ==> #[trigger] places[k] < #[trigger] places[m]
            &&& 0 <= i < db.events.len() && db.events[i].device_id == db.device_id && !places.contains(i)
                ==> recent.len() == limit && forall|k: int| 0 <= k < places.len() ==> i < #[trigger] places[k]
        }),
{
    let p = |e: EventView| e.device_id == db.device_id;
    let own = db.events.filter(p);
    let at = filter_places(db.events, p);
    let places = model::last_up_to(at, limit);
    let recent = db.recent_events(limit);
    let d = at.len() - places.len();
    assert forall|k: int| 0 <= k < places.len() implies 0 <= #[trigger] places[k] < db.events.len()
        && db.events[places[k]].device_id == db.device_id && recent[k] == model::handed_over(
        db.events[places[k]],
        db.clips,
    ) by {
        assert(places[k] == at[d + k]);
        assert(own[d + k] == db.events[at[d + k]]);
    }
    assert forall|k: int, m: int| 0 <= k < m < places.len() implies #[trigger] places[k] < #[trigger] places[m] by {
        assert(places[k] == at[d + k] && places[m] == at[d + m]);
    }
    if 0 <= i < db.events.len() && db.events[i].device_id == db.device_id && !places.contains(i) {
        assert(p(db.events[i]));
        let k = choose|k: int| 0 <= k < at.len() && at[k] == i;
        if k >= d {
            assert(places[k - d] == i);
        }
        assert forall|m: int| 0 <= m < places.len() implies i < #[trigger] places[m] by {
            assert(places[m] == at[d + m]);
        }
    }
    places
}

/// A request names the device, tells how far it has followed whom, and pushes
/// its last two hundred events, opened.
pub proof fn requests_push_the_last_events(db: Database, crypto: crate::crypto::CryptoState, r: sync::SyncRequest, author: Seq<char>)
    requires
        call_ensures(sync::sync_request, (&db, &crypto), r),
    ensures
        r.device_id@ == db@.device_id,
        model::clock_for(r.peer_sync_state@, author) == db@.acknowledged(author),
        ({
            let pushed = tables::sync_views(r.pushed_events@);
            let recent = db@.recent_events(200);
            &&& pushed.len() == recent.len()
            &&& forall|i: int| 0 <= i < recent.len() ==> #[trigger] pushed[i] == sync::opened(crypto@, recent[i])
        }),
{
    crate::laws::reported_clocks_are_acknowledged(db@, author);
}

/// The events past a clock are handed over, each of them and no other, and none
/// before one with a smaller clock.
pub proof fn events_past_a_clock_are_handed_over(db: Database, cursor: i64, r: Vec<SyncEvent>, e: EventView, k: int)
    requires
        call_ensures(Database::get_events_since_hlc, (&db, cursor), r),
        db@.events.contains(e),
    ensures
        ({
            let handed = tables::sync_views(r@);
            &&& e.vector_clock > cursor ==> handed.contains(model::handed_over(e, db@.clips))
            &&& 0 <= k < handed.len() ==> handed[k].vector_clock > cursor
            &&& 0 < k < handed.len() ==> handed[k - 1].vector_clock <= handed[k].vector_clock
            &&& handed.len() == db@.events.filter(|e: EventView| e.vector_clock > cursor).len()
        }),
{
    let p = |e: EventView| e.vector_clock > cursor;
    let handed = tables::sync_views(r@);
    let past = db@.events.filter(p);
    let picked = choose|picked: Seq<EventView>|
        model::by_clock(picked) && picked.to_multiset() == past.to_multiset() && tables::sync_views(r@)
            == #[trigger] model::all_handed_over(picked, db@.clips);
    broadcast use vstd::seq_lib::group_to_multiset_ensures;

    assert(picked.to_multiset().len() == picked.len());
    assert(past.to_multiset().len() == past.len());
    if e.vector_clock > cursor {
        seqs::filter_membership(db@.events, p, e);
        assert(past.to_multiset().count(e) > 0);
        assert(picked.contains(e));
        let i = choose|i: int| 0 <= i < picked.len() && picked[i] == e;
        assert(handed[i] == model::handed_over(e, db@.clips));
    }
    if 0 <= k < handed.len() {
        let f = picked[k];
        assert(handed[k] == model::handed_over(f, db@.clips));
        assert(picked.contains(f));
        assert(past.to_multiset().count(f) > 0);
        assert(past.contains(f));
        seqs::filter_membership(db@.events, p, f);
        if k > 0 {
            assert(handed[k - 1] == model::handed_over(picked[k - 1], db@.clips));
        }
    }
}

/// The clip of the latest event is that of an event with the largest clock.
pub proof fn latest_event_has_the_largest_clock(db: Database, r: Option<String>, i: int)
    requires
        call_ensures(Database::get_latest_event_uuid, (&db,), r),
        0 <= i < db@.events.len(),
    ensures
        r is Some,
        exists|k: int|
            0 <= k < db@.events.len() && (#[trigger] db@.events[k]).clip_uuid == r->0@ && db@.events[i].vector_clock
                <= db@.events[k].vector_clock,
{
    crate::db::max_clock_is_largest(db@.events, i);
}

// ---------------------------------------------------------------------------
// Pruning, and what is known of other devices
// ---------------------------------------------------------------------------

/// Pruning takes an event out of the log if and only if it is one of this device
/// and not past what any peer has acknowledged of it, or not past zero where no
/// peer has acknowledged anything of it. Without any acknowledgement nothing is
/// pruned. Nothing else of the store changes.
pub proof fn pruning_takes_followed_events(db: DbView, e: EventView)
    requires
        db.events.contains(e),
    ensures
        ({
            let a = db.pruned();
            let everyone = forall|j: int|
                0 <= j < db.states.len() && (#[trigger] db.states[j]).author_id == db.device_id ==> e.vector_clock
                    <= db.states[j].acknowledged_clock;
            let nobody = forall|j: int|
                0 <= j < db.states.len() ==> (#[trigger] db.states[j]).author_id != db.device_id;
            &&& a == (DbView { events: a.events, ..db })
            &&& !a.events.contains(e) <==> {
                &&& db.states.len() > 0
                &&& e.device_id == db.device_id
                &&& everyone
                &&& nobody ==> e.vector_clock <= 0
            }
        }),
{
    let mine = |s: SyncStateView| s.author_id == db.device_id;
    let own = db.states.filter(mine);
    let upto = model::min_acknowledged(own);
    let kept = |e: EventView| !(e.vector_clock <= upto && e.device_id == db.device_id);
    seqs::filter_membership(db.events, kept, e);
    if db.states.len() > 0 {
        if own.len() == 0 {
            assert forall|j: int| 0 <= j < db.states.len() implies (#[trigger] db.states[j]).author_id != db.device_id by {
                if mine(db.states[j]) {
                    let k = seqs::filter_keeps(db.states, mine, j);
                }
            }
        } else {
            let k = smallest_is_there(own);
            let j = seqs::filter_origin(db.states, mine, k);
            assert(db.states[j].author_id == db.device_id);
            assert forall|j: int|
                0 <= j < db.states.len() && (#[trigger] db.states[j]).author_id == db.device_id implies upto
                <= db.states[j].acknowledged_clock by {
                let k = seqs::filter_keeps(db.states, mine, j);
                crate::laws::min_acknowledged_is_smallest(own, k);
            }
        }
    }
}

proof fn smallest_is_there(states: Seq<SyncStateView>) -> (i: int)
    requires
        states.len() > 0,
    ensures
        0 <= i < states.len(),
        states[i].acknowledged_clock == model::min_acknowledged(states),
    decreases states.len(),
{
    if states.len() == 1 || states.last().acknowledged_clock < model::min_acknowledged(states.drop_last()) {
        states.len() - 1
    } else {
        smallest_is_there(states.drop_last())
    }
}

/// A device that was seen is known under the name and the time given, and no
/// other device is known differently.
pub proof fn seen_device_is_known(db: DbView, device_id: Seq<char>, name: Seq<char>, last_seen: int, p: KnownPeerView)
    requires
        db.wf(),
    ensures
        ({
            let a = db.with_peer(device_id, name, last_seen);
            &&& a == (DbView { peers: a.peers, ..db })
            &&& p.device_id == device_id ==> (a.peers.contains(p) <==> p.name == name && p.last_seen == last_seen)
            &&& p.device_id != device_id ==> (a.peers.contains(p) <==> db.peers.contains(p))
        }),
{
    let a = db.with_peer(device_id, name, last_seen);
    let row = KnownPeerView { device_id, name, last_seen };
    let n = match model::peer_at(db.peers, device_id) {
        Some(i) => i,
        None => db.peers.len() as int,
    };
    assert(a.peers[n] == row);
    if a.peers.contains(p) {
        let k = choose|k: int| 0 <= k < a.peers.len() && a.peers[k] == p;
        if k != n {
            assert(a.peers[k] == db.peers[k]);
            if n < db.peers.len() {
                if k < n {
                    assert(db.peers[k].device_id != db.peers[n].device_id);
                } else {
                    assert(db.peers[n].device_id != db.peers[k].device_id);
                }
            }
        }
    }
    if db.peers.contains(p) && p.device_id != device_id {
        let k = choose|k: int| 0 <= k < db.peers.len() && db.peers[k] == p;
        assert(a.peers[k] == p);
    }
}

/// A forgotten device is neither known nor has it acknowledged anything; of all
/// others everything stays. Forgetting all leaves nobody known and nothing
/// acknowledged, and touches nothing else.
pub proof fn forgotten_device_is_gone(db: DbView, peer_id: Seq<char>, p: KnownPeerView, s: SyncStateView)
    ensures
        ({
            let a = db.without_peer(peer_id);
            let n = db.without_peers();
            &&& a == (DbView { peers: a.peers, states: a.states, ..db })
            &&& a.peers.contains(p) <==> db.peers.contains(p) && p.device_id != peer_id
            &&& a.states.contains(s) <==> db.states.contains(s) && s.peer_id != peer_id
            &&& n == (DbView { peers: n.peers, states: n.states, ..db })
            &&& n.peers.len() == 0 && n.states.len() == 0
        }),
{
    seqs::filter_membership(db.peers, |p: KnownPeerView| p.device_id != peer_id, p);
    seqs::filter_membership(db.states, |s: SyncStateView| s.peer_id != peer_id, s);
}

/// How far a peer has followed this device is what was noted of it last, and
/// noting it changes no other acknowledgement and nothing else.
pub proof fn noted_acknowledgement_counts(db: DbView, peer_id: Seq<char>, clock: int, s: SyncStateView)
    requires
        db.wf(),
    ensures
        ({
            let a = db.followed_by(peer_id, clock);
            let noted = s.author_id == db.device_id && s.peer_id == peer_id;
            &&& a == (DbView { states: a.states, ..db })
            &&& noted ==> (a.states.contains(s) <==> s.acknowledged_clock == clock)
            &&& !noted ==> (a.states.contains(s) <==> db.states.contains(s))
        }),
{
    let a = db.followed_by(peer_id, clock);
    let at = model::state_at(db.states, db.device_id, peer_id);
    let n = match at {
        Some(i) => i,
        None => db.states.len() as int,
    };
    assert(a.states[n] == (SyncStateView { author_id: db.device_id, peer_id, acknowledged_clock: clock }));
    if a.states.contains(s) {
        let k = choose|k: int| 0 <= k < a.states.len() && a.states[k] == s;
        if k != n {
            assert(a.states[k] == db.states[k]);
            if n < db.states.len() {
                if k < n {
                    assert(db.states[k].author_id != db.states[n].author_id || db.states[k].peer_id
                        != db.states[n].peer_id);
                } else {
                    assert(db.states[n].author_id != db.states[k].author_id || db.states[n].peer_id
                        != db.states[k].peer_id);
                }
            }
        }
    }
    if db.states.contains(s) && !(s.author_id == db.device_id && s.peer_id == peer_id) {
        let k = choose|k: int| 0 <= k < db.states.len() && db.states[k] == s;
        assert(a.states[k] == s);
    }
}

/// The clocks that a device reports are those that its own rows hold: one for
/// each author that it has followed, and none for others.
pub proof fn reported_clocks_are_those_of_the_rows(db: DbView, author: Seq<char>, clock: int)
    requires
        db.wf(),
    ensures
        (db.sync_states().dom().contains(author) && db.sync_states()[author] == clock) <==> db.states.contains(
            SyncStateView { author_id: author, peer_id: db.device_id, acknowledged_clock: clock },
        ),
        !db.sync_states().dom().contains(author) ==> db.acknowledged(author) == 0,
{
    let row = SyncStateView { author_id: author, peer_id: db.device_id, acknowledged_clock: clock };
    if db.states.contains(row) {
        let k = choose|k: int| 0 <= k < db.states.len() && db.states[k] == row;
        crate::laws::state_found(db.states, k);
    }
    if db.sync_states().dom().contains(author) {
        let i = model::state_at(db.states, author, db.device_id)->0;
        assert(db.states[i].author_id == author && db.states[i].peer_id == db.device_id);
    }
}

} // verus!
