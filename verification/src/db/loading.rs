//! A store from the rows of its tables.
use super::Database;
use crate::model;
use crate::model::DbView;
use crate::tables;
use crate::tables::{ClipRow, EventRow, EventView, KnownPeer, SyncStateRow};
use crate::text::same;
use vstd::prelude::*;

verus! {

broadcast use vstd::seq_lib::group_seq_properties;

/// Dropping repeated events keeps the order of the log, and no event is left
/// twice.
pub proof fn deduplication_is_sound(events: Seq<EventView>, event_seq: int)
    requires
        model::events_ordered(events, event_seq),
    ensures
        model::events_ordered(model::deduplicated(events), event_seq),
        model::events_unique(model::deduplicated(events)),
        forall|i: int|
            0 <= i < model::deduplicated(events).len() ==> events.contains(
                #[trigger] model::deduplicated(events)[i],
            ),
        forall|i: int|
            0 <= i < events.len() ==> model::logs(
                model::deduplicated(events),
                (#[trigger] events[i]).clip_uuid,
                events[i].device_id,
                events[i].vector_clock,
            ),
    decreases events.len(),
{
    if events.len() > 0 {
        let front = events.drop_last();
        let kept = model::deduplicated(front);
        let e = events.last();
        let all = model::deduplicated(events);
        assert forall|i: int, j: int| 0 <= i < j < front.len() implies (#[trigger] front[i]).id < (
        #[trigger] front[j]).id by {
            assert(events[i].id < events[j].id);
        }
        assert forall|i: int| 0 <= i < front.len() implies (#[trigger] front[i]).id <= event_seq by {
            assert(events[i].id <= event_seq);
        }
        deduplication_is_sound(front, event_seq);
        assert forall|i: int| 0 <= i < all.len() implies events.contains(#[trigger] all[i]) by {
            if i < kept.len() {
                assert(all[i] == kept[i]);
                assert(front.contains(kept[i]));
                let k = choose|k: int| 0 <= k < front.len() && front[k] == kept[i];
                assert(events[k] == kept[i]);
            } else {
                assert(events[events.len() - 1] == e);
            }
        }
        assert forall|i: int, j: int| 0 <= i < j < all.len() implies (#[trigger] all[i]).id < (#[trigger] all[j]).id
            && !model::same_event(all[i], all[j]) by {
            assert(all[i] == kept[i]);
            if j < kept.len() {
                assert(all[j] == kept[j]);
            } else {
                assert(front.contains(kept[i]));
                let k = choose|k: int| 0 <= k < front.len() && front[k] == kept[i];
                assert(events[k].id < events[events.len() - 1].id);
            }
        }
        assert forall|i: int| 0 <= i < all.len() implies (#[trigger] all[i]).id <= event_seq by {
            if i < kept.len() {
                assert(all[i] == kept[i]);
            } else {
                assert(events[events.len() - 1].id <= event_seq);
            }
        }
        assert forall|i: int| 0 <= i < events.len() implies model::logs(
            all,
            (#[trigger] events[i]).clip_uuid,
            events[i].device_id,
            events[i].vector_clock,
        ) by {
            if i < front.len() {
                assert(front[i] == events[i]);
                let k = choose|k: int|
                    0 <= k < kept.len() && (#[trigger] kept[k]).clip_uuid == events[i].clip_uuid && kept[k].device_id
                        == events[i].device_id && kept[k].vector_clock == events[i].vector_clock;
                assert(all[k] == kept[k]);
            } else if all.len() > kept.len() {
                assert(all[kept.len() as int] == e);
            }
        }
    }
}

fn clips_fit(clips: &Vec<ClipRow>, clip_seq: i64) -> (r: bool)
    ensures
        r == model::clips_wf(tables::clip_views(clips@), clip_seq as int),
{
    if clip_seq < 0 {
        return false;
    }
    let ghost v = tables::clip_views(clips@);
    let mut j: usize = 0;
    while j < clips.len()
        invariant
            clip_seq >= 0,
            j <= clips@.len(),
            v == tables::clip_views(clips@),
            forall|a: int, b: int| 0 <= a < b < j ==> (#[trigger] v[a]).id < (#[trigger] v[b]).id,
            forall|a: int| 0 <= a < j ==> (#[trigger] v[a]).id <= clip_seq,
            forall|a: int, b: int|
                0 <= a < b < j && (#[trigger] v[a]).uuid is Some ==> v[a].uuid != (#[trigger] v[b]).uuid,
        decreases clips@.len() - j,
    {
        assert(v[j as int] == clips@[j as int]@);
        if clips[j].id > clip_seq {
            return false;
        }
        if j > 0 {
            assert(v[j - 1] == clips@[j - 1]@);
            if clips[j - 1].id >= clips[j].id {
                return false;
            }
        }
        let mut i: usize = 0;
        while i < j
            invariant
                i <= j < clips@.len(),
                v == tables::clip_views(clips@),
                forall|a: int| 0 <= a < i && (#[trigger] v[a]).uuid is Some ==> v[a].uuid != v[j as int].uuid,
            decreases j - i,
        {
            assert(v[i as int] == clips@[i as int]@);
            assert(v[j as int] == clips@[j as int]@);
            match (&clips[i].uuid, &clips[j].uuid) {
                (Some(a), Some(b)) => {
                    if same(a.as_str(), b.as_str()) {
                        return false;
                    }
                },
                _ => {},
            }
            i += 1;
        }
        assert forall|a: int, b: int| 0 <= a < b < j + 1 implies (#[trigger] v[a]).id < (#[trigger] v[b]).id by {
            if b == j && a < j - 1 {
                assert(v[a].id < v[j - 1].id);
            }
        }
        j += 1;
    }
    true
}

fn events_fit(events: &Vec<EventRow>, event_seq: i64) -> (r: bool)
    ensures
        r == model::events_ordered(tables::event_views(events@), event_seq as int),
{
    if event_seq < 0 {
        return false;
    }
    let ghost v = tables::event_views(events@);
    let mut j: usize = 0;
    while j < events.len()
        invariant
            event_seq >= 0,
            j <= events@.len(),
            v == tables::event_views(events@),
            forall|a: int, b: int| 0 <= a < b < j ==> (#[trigger] v[a]).id < (#[trigger] v[b]).id,
            forall|a: int| 0 <= a < j ==> (#[trigger] v[a]).id <= event_seq,
        decreases events@.len() - j,
    {
        assert(v[j as int] == events@[j as int]@);
        if events[j].id > event_seq {
            return false;
        }
        if j > 0 {
            assert(v[j - 1] == events@[j - 1]@);
            if events[j - 1].id >= events[j].id {
                return false;
            }
        }
        assert forall|a: int, b: int| 0 <= a < b < j + 1 implies (#[trigger] v[a]).id < (#[trigger] v[b]).id by {
            if b == j && a < j - 1 {
                assert(v[a].id < v[j - 1].id);
            }
        }
        j += 1;
    }
    true
}

fn states_differ(states: &Vec<SyncStateRow>) -> (r: bool)
    ensures
        r == model::states_unique(tables::state_views(states@)),
{
    let ghost v = tables::state_views(states@);
    let mut j: usize = 0;
    while j < states.len()
        invariant
            j <= states@.len(),
            v == tables::state_views(states@),
            forall|a: int, b: int|
                0 <= a < b < j ==> (#[trigger] v[a]).author_id != (#[trigger] v[b]).author_id || v[a].peer_id
                    != v[b].peer_id,
        decreases states@.len() - j,
    {
        let mut i: usize = 0;
        while i < j
            invariant
                i <= j < states@.len(),
                v == tables::state_views(states@),
                forall|a: int|
                    0 <= a < i ==> (#[trigger] v[a]).author_id != v[j as int].author_id || v[a].peer_id
                        != v[j as int].peer_id,
            decreases j - i,
        {
            assert(v[i as int] == states@[i as int]@);
            assert(v[j as int] == states@[j as int]@);
            if same(states[i].author_id.as_str(), states[j].author_id.as_str()) && same(
                states[i].peer_id.as_str(),
                states[j].peer_id.as_str(),
            ) {
                return false;
            }
            i += 1;
        }
        j += 1;
    }
    true
}

fn peers_differ(peers: &Vec<KnownPeer>) -> (r: bool)
    ensures
        r == model::peers_unique(tables::peer_views(peers@)),
{
    let ghost v = tables::peer_views(peers@);
    let mut j: usize = 0;
    while j < peers.len()
        invariant
            j <= peers@.len(),
            v == tables::peer_views(peers@),
            forall|a: int, b: int| 0 <= a < b < j ==> (#[trigger] v[a]).device_id != (#[trigger] v[b]).device_id,
        decreases peers@.len() - j,
    {
        let mut i: usize = 0;
        while i < j
            invariant
                i <= j < peers@.len(),
                v == tables::peer_views(peers@),
                forall|a: int| 0 <= a < i ==> (#[trigger] v[a]).device_id != v[j as int].device_id,
            decreases j - i,
        {
            assert(v[i as int] == peers@[i as int]@);
            assert(v[j as int] == peers@[j as int]@);
            if same(peers[i].device_id.as_str(), peers[j].device_id.as_str()) {
                return false;
            }
            i += 1;
        }
        j += 1;
    }
    true
}

fn drop_repeated(events: Vec<EventRow>) -> (r: Vec<EventRow>)
    ensures
        tables::event_views(r@) == model::deduplicated(tables::event_views(events@)),
{
    let ghost v = tables::event_views(events@);
    let mut kept: Vec<EventRow> = Vec::new();
    assert(tables::event_views(kept@) =~= model::deduplicated(v.take(0)));
    for e in it: events.into_iter()
        invariant
            it.seq() == events@,
            v == tables::event_views(events@),
            tables::event_views(kept@) == model::deduplicated(v.take(it.index() as int)),
    {
        let ghost i = it.index() as int;
        let ghost so_far = kept@;
        let ghost front = tables::event_views(kept@);
        proof {
            assert(v[i] == e@);
            assert(v.take(i + 1).drop_last() =~= v.take(i));
            assert(v.take(i + 1).last() == e@);
        }
        let mut repeated = false;
        let mut k: usize = 0;
        while k < kept.len()
            invariant
                k <= kept@.len(),
                front == tables::event_views(kept@),
                repeated == (exists|j: int|
                    0 <= j < k && (#[trigger] front[j]).clip_uuid == e@.clip_uuid && front[j].device_id == e@.device_id
                        && front[j].vector_clock == e@.vector_clock),
            decreases kept@.len() - k,
        {
            assert(front[k as int] == kept@[k as int]@);
            if kept[k].vector_clock == e.vector_clock && same(kept[k].clip_uuid.as_str(), e.clip_uuid.as_str()) && same(
                kept[k].device_id.as_str(),
                e.device_id.as_str(),
            ) {
                repeated = true;
            }
            k += 1;
        }
        if !repeated {
            kept.push(e);
            assert(tables::event_views(kept@) =~= front.push(e@));
        }
    }
    assert(v.take(v.len() as int) =~= v);
    kept
}

impl Database {
    /// The store of a device from the rows of its tables, with the last numbers
    /// given out. Repeated events are dropped. Nothing comes back where the
    /// rows cannot be those of a store: rows out of order, or a key twice.
    pub fn from_tables(
        device_id: String,
        clips: Vec<ClipRow>,
        clip_seq: i64,
        events: Vec<EventRow>,
        event_seq: i64,
        states: Vec<SyncStateRow>,
        peers: Vec<KnownPeer>,
    ) -> (r: Option<Database>)
        ensures
            r is Some <==> {
                &&& model::clips_wf(tables::clip_views(clips@), clip_seq as int)
                &&& model::events_ordered(tables::event_views(events@), event_seq as int)
                &&& model::states_unique(tables::state_views(states@))
                &&& model::peers_unique(tables::peer_views(peers@))
            },
            r matches Some(d) ==> d.wf() && d@ == (DbView {
                device_id: device_id@,
                clips: tables::clip_views(clips@),
                clip_seq: clip_seq as int,
                events: model::deduplicated(tables::event_views(events@)),
                event_seq: event_seq as int,
                states: tables::state_views(states@),
                peers: tables::peer_views(peers@),
            }),
    {
        if !(clips_fit(&clips, clip_seq) && events_fit(&events, event_seq) && states_differ(&states) && peers_differ(
            &peers,
        )) {
            return None;
        }
        proof {
            deduplication_is_sound(tables::event_views(events@), event_seq as int);
        }
        let events = drop_repeated(events);
        Some(Database { device_id, clips, clip_seq, events, event_seq, states, peers })
    }
}

} // verus!
