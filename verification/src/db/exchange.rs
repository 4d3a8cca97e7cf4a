//! What a device takes over from others and hands to them.
use super::{Change, Database, Selected};
use crate::model;
use crate::model::{DbError, DbView};
use crate::primitives::now_micros;
use crate::seqs;
use crate::tables;
use crate::tables::{
    copy_bytes, copy_opt_bytes, copy_opt_text, ClipView, EventRow, EventView, Clocks, SyncEvent, SyncEventView, SyncStateRow, SyncStateView,
};
use crate::text;
use crate::text::{same, text_below};
use vstd::prelude::*;
use vstd::seq_lib::*;

verus! {

broadcast use vstd::seq_lib::group_seq_properties;

proof fn updated_states_unique(states: Seq<SyncStateView>, i: int, clock: int)
    requires
        model::states_unique(states),
        0 <= i < states.len(),
    ensures
        model::states_unique(
            states.update(i, SyncStateView { acknowledged_clock: clock, ..states[i] }),
        ),
{
}

impl Database {
    fn set_state(&mut self, author: &str, peer: &str, clock: i64)
        requires
            old(self).wf(),
        ensures
            final(self).wf(),
            final(self)@ == old(self)@.with_state(author@, peer@, clock as int),
    {
        let ghost before = *self;
        match self.find_state(author, peer) {
            Some(i) => {
                proof {
                    let v = before@.states;
                    assert(v[i as int].author_id == author@ && v[i as int].peer_id == peer@) by {
                        let k = choose|k: int|
                            0 <= k < v.len() && (#[trigger] v[k]).author_id == author@ && v[k].peer_id == peer@;
                        assert(k == i);
                    }
                    updated_states_unique(v, i as int, clock as int);
                }
                self.states.set(
                    i,
                    SyncStateRow {
                        author_id: author.to_owned(),
                        peer_id: peer.to_owned(),
                        acknowledged_clock: clock,
                    },
                );
                assert(self@.states =~= before@.states.update(
                    i as int,
                    SyncStateView { author_id: author@, peer_id: peer@, acknowledged_clock: clock as int },
                ));
            },
            None => {
                self.states.push(
                    SyncStateRow {
                        author_id: author.to_owned(),
                        peer_id: peer.to_owned(),
                        acknowledged_clock: clock,
                    },
                );
                proof {
                    let row = SyncStateView { author_id: author@, peer_id: peer@, acknowledged_clock: clock as int };
                    assert(self@.states =~= before@.states.push(row));
                    let s = self@.states;
                    assert forall|i: int, j: int| 0 <= i < j < s.len() implies (#[trigger] s[i]).author_id != (
                    #[trigger] s[j]).author_id || s[i].peer_id != s[j].peer_id by {
                        assert(s[i] == before@.states[i]);
                        if j < s.len() - 1 {
                            assert(s[j] == before@.states[j]);
                        }
                    }
                }
            },
        }
    }

    fn acknowledge(&mut self, author: &str, clock: i64)
        requires
            old(self).wf(),
        ensures
            final(self).wf(),
            final(self)@ == old(self)@.acknowledging(author@, clock as int),
    {
        let me = self.device_id.clone();
        let upto: i64 = match self.find_state(author, me.as_str()) {
            Some(i) => {
                assert(self@.states[i as int] == self.states@[i as int]@);
                let have = self.states[i].acknowledged_clock;
                if have >= clock {
                    have
                } else {
                    clock
                }
            },
            None => clock,
        };
        self.set_state(author, me.as_str(), upto);
    }

    /// How far this device has followed an author; zero where it has not.
    pub fn get_peer_sync_state(&self, author_id: &str) -> (r: i64)
        requires
            self.wf(),
        ensures
            r == self@.acknowledged(author_id@),
    {
        match self.find_state(author_id, self.device_id.as_str()) {
            Some(i) => {
                assert(self@.states[i as int] == self.states@[i as int]@);
                self.states[i].acknowledged_clock
            },
            None => 0,
        }
    }

    /// Notes how far a peer has followed this device.
    pub fn update_peer_sync_state(&mut self, peer_id: &str, clock: i64)
        requires
            old(self).wf(),
        ensures
            final(self).wf(),
            final(self)@ == old(self)@.with_state(old(self)@.device_id, peer_id@, clock as int),
            final(self)@ == old(self)@.followed_by(peer_id@, clock as int),
    {
        let me = self.device_id.clone();
        self.set_state(me.as_str(), peer_id, clock);
    }

    fn logs_event(&self, clip_uuid: &str, device_id: &str, clock: i64) -> (r: bool)
        ensures
            r == model::logs(self@.events, clip_uuid@, device_id@, clock as int),
    {
        let mut i: usize = 0;
        while i < self.events.len()
            invariant
                i <= self.events@.len(),
                forall|j: int|
                    0 <= j < i ==> !((#[trigger] self@.events[j]).clip_uuid == clip_uuid@ && self@.events[j].device_id
                        == device_id@ && self@.events[j].vector_clock == clock),
            decreases self.events@.len() - i,
        {
            assert(self@.events[i as int] == self.events@[i as int]@);
            let e = &self.events[i];
            if e.vector_clock == clock && same(e.clip_uuid.as_str(), clip_uuid) && same(
                e.device_id.as_str(),
                device_id,
            ) {
                return true;
            }
            i += 1;
        }
        false
    }

    fn is_latest(&self, evt: &SyncEvent) -> (r: bool)
        ensures
            r == self@.is_latest(evt@),
    {
        let mut i: usize = 0;
        while i < self.events.len()
            invariant
                i <= self.events@.len(),
                forall|j: int|
                    0 <= j < i && (#[trigger] self@.events[j]).clip_uuid == evt@.clip_uuid ==> {
                        ||| self@.events[j].timestamp < evt@.timestamp
                        ||| self@.events[j].timestamp == evt@.timestamp && text::text_lt(
                            self@.events[j].device_id,
                            evt@.device_id,
                        )
                    },
            decreases self.events@.len() - i,
        {
            assert(self@.events[i as int] == self.events@[i as int]@);
            let e = &self.events[i];
            if same(e.clip_uuid.as_str(), evt.clip_uuid.as_str()) {
                let earlier = e.timestamp < evt.timestamp || (e.timestamp == evt.timestamp && text_below(
                    e.device_id.as_str(),
                    evt.device_id.as_str(),
                ));
                if !earlier {
                    return false;
                }
            }
            i += 1;
        }
        true
    }

    fn upsert_clip(&mut self, evt: &SyncEvent, content_type: &str)
        requires
            old(self).wf(),
            old(self)@.clip_seq < model::max_row(),
        ensures
            final(self).wf(),
            final(self)@ == old(self)@.upserted(evt@, content_type@, evt@.payload),
    {
        let ghost before = *self;
        let pinned = evt.pinned == Some(true);
        let is_locked = evt.is_locked == Some(true);
        let has_attachment = evt.has_attachment == Some(true);
        match self.find_uuid(evt.clip_uuid.as_str()) {
            Some(i) => {
                assert(before@.clips[i as int] == before.clips@[i as int]@);
                self.clips[i].content_type = content_type.to_owned();
                match &evt.payload {
                    Some(p) => {
                        self.clips[i].encrypted_payload = copy_bytes(p);
                    },
                    None => {},
                }
                self.clips[i].timestamp = evt.timestamp;
                self.clips[i].pinned = pinned;
                self.clips[i].is_locked = is_locked;
                self.clips[i].has_attachment = has_attachment;
                self.clips[i].attachment_path = copy_opt_text(&evt.attachment_path);
                self.clip_seq = self.clip_seq + 1;
                proof {
                    let want = before@.upserted(evt@, content_type@, evt@.payload);
                    assert(self@.clips[i as int] == want.clips[i as int]);
                    assert(self@.clips =~= want.clips);
                    assert forall|j: int| 0 <= j < self@.clips.len() implies (#[trigger] self@.clips[j]).id
                        == before@.clips[j].id && self@.clips[j].uuid == before@.clips[j].uuid by {}
                }
            },
            None => {
                let payload: Vec<u8> = match &evt.payload {
                    Some(p) => copy_bytes(p),
                    None => Vec::new(),
                };
                assert(evt@.payload is None ==> payload@ =~= Seq::<u8>::empty());
                self.append_clip(
                    evt.clip_uuid.clone(),
                    content_type.to_owned(),
                    payload,
                    evt.timestamp,
                    pinned,
                    is_locked,
                    false,
                    None,
                    has_attachment,
                    copy_opt_text(&evt.attachment_path),
                );
            },
        }
    }

    fn bury_clip(&mut self, uuid: &str, timestamp: i64)
        requires
            old(self).wf(),
        ensures
            final(self).wf(),
            final(self)@ == old(self)@.buried(uuid@, timestamp as int),
    {
        if self.clip_seq == i64::MAX {
            return;
        }
        let ghost before = *self;
        match self.find_uuid(uuid) {
            Some(i) => {
                assert(before@.clips[i as int] == before.clips@[i as int]@);
                self.clips[i].is_deleted = true;
                self.clip_seq = self.clip_seq + 1;
                proof {
                    let want = before@.buried(uuid@, timestamp as int);
                    assert(self@.clips[i as int] == want.clips[i as int]);
                    assert(self@.clips =~= want.clips);
                    assert forall|j: int| 0 <= j < self@.clips.len() implies (#[trigger] self@.clips[j]).id
                        == before@.clips[j].id && self@.clips[j].uuid == before@.clips[j].uuid by {}
                }
            },
            None => {
                let empty: Vec<u8> = Vec::new();
                assert(empty@ =~= Seq::<u8>::empty());
                self.append_clip(
                    uuid.to_owned(),
                    "text".to_owned(),
                    empty,
                    timestamp,
                    false,
                    false,
                    true,
                    None,
                    false,
                    None,
                );
            },
        }
    }

    fn carry_out(&mut self, evt: &SyncEvent) -> (r: Result<(), DbError>)
        requires
            old(self).wf(),
        ensures
            final(self).wf(),
            (final(self)@, r) == old(self)@.carried_out(evt@),
    {
        let ghost before = self@;
        let kind = evt.event_type.as_str();
        if same(kind, "INSERT") || same(kind, "UPDATE") {
            match &evt.content_type {
                Some(ctype) => {
                    if evt.payload.is_some() || evt.has_attachment == Some(true) {
                        if self.clip_seq == i64::MAX {
                            return Err(DbError::Full);
                        }
                        self.upsert_clip(evt, ctype.as_str());
                    }
                },
                None => {},
            }
        } else if same(kind, "DELETE") {
            self.bury_clip(evt.clip_uuid.as_str(), evt.timestamp);
        } else {
            let change = if same(kind, "LOCK") {
                Change::Lock(true)
            } else if same(kind, "PIN") {
                Change::Pin(true)
            } else if same(kind, "UNPIN") {
                Change::Pin(false)
            } else {
                return Ok(());
            };
            let selected = Selected::Uuid(evt.clip_uuid.as_str());
            proof {
                let got = model::changed(before.clips, |c: ClipView| selected.holds(c), |c: ClipView| change.made(c));
                assert(got =~= before.carried_out(evt@).0.clips);
            }
            self.change_clips(selected, change);
        }
        Ok(())
    }

    fn record(&mut self, evt: &SyncEvent)
        requires
            old(self).wf(),
        ensures
            final(self).wf(),
            final(self)@ == old(self)@.recorded(evt@),
    {
        if self.event_seq == i64::MAX {
            return;
        }
        if self.logs_event(evt.clip_uuid.as_str(), evt.device_id.as_str(), evt.vector_clock) {
            self.event_seq = self.event_seq + 1;
        } else {
            self.log_event(
                evt.event_type.clone(),
                evt.clip_uuid.clone(),
                evt.device_id.clone(),
                evt.vector_clock,
                evt.timestamp,
                copy_opt_text(&evt.content_type),
                copy_opt_bytes(&evt.payload),
                Some(evt.has_attachment == Some(true)),
                copy_opt_text(&evt.attachment_path),
            );
        }
    }

    /// Takes over one event of another device, at a reading of the machine's
    /// clock.
    pub fn apply_event(&mut self, evt: &SyncEvent, now: i64) -> (r: Result<(), DbError>)
        requires
            old(self).wf(),
        ensures
            final(self).wf(),
            (final(self)@, r) == old(self)@.apply_event(evt@, now as int),
    {
        if evt.timestamp as i128 > now as i128 + model::MAX_FUTURE as i128 {
            return Ok(());
        }
        if evt.vector_clock <= self.get_peer_sync_state(evt.device_id.as_str()) {
            return Ok(());
        }
        if self.is_latest(evt) {
            match self.carry_out(evt) {
                Err(e) => {
                    return Err(e);
                },
                Ok(_) => {},
            }
        }
        self.record(evt);
        self.acknowledge(evt.device_id.as_str(), evt.vector_clock);
        Ok(())
    }

    /// Takes over events of another device one after the other, up to the first
    /// that fails, at a reading of the machine's clock.
    pub fn apply_sync_events_at(&mut self, events: &Vec<SyncEvent>, now: i64) -> (r: Result<(), DbError>)
        requires
            old(self).wf(),
        ensures
            final(self).wf(),
            (final(self)@, r) == old(self)@.apply_sync_events(tables::sync_views(events@), now as int),
    {
        let ghost before = self@;
        let ghost all = tables::sync_views(events@);
        let mut i: usize = 0;
        assert(all.take(0) =~= Seq::<SyncEventView>::empty());
        while i < events.len()
            invariant
                before == old(self)@,
                self.wf(),
                i <= events@.len(),
                all == tables::sync_views(events@),
                (self@, Ok::<(), DbError>(())) == before.apply_sync_events(all.take(i as int), now as int),
            decreases events@.len() - i,
        {
            proof {
                assert(all.take(i as int + 1).drop_last() =~= all.take(i as int));
                assert(all.take(i as int + 1).last() == events@[i as int]@);
            }
            match self.apply_event(&events[i], now) {
                Err(e) => {
                    proof {
                        failure_stays(before, all, i as int + 1, now as int);
                    }
                    return Err(e);
                },
                Ok(_) => {},
            }
            i += 1;
        }
        assert(all.take(i as int) =~= all);
        Ok(())
    }

    /// Takes over events of another device.
    pub fn apply_sync_events(&mut self, events: Vec<SyncEvent>) -> (r: Result<(), DbError>)
        requires
            old(self).wf(),
        ensures
            final(self).wf(),
            (exists|now: int|
                (final(self)@, r) == #[trigger] old(self)@.apply_sync_events(tables::sync_views(events@), now)) || (
            final(self)@ == old(self)@ && r == Err::<(), DbError>(DbError::ClockBeforeEpoch)),
    {
        match now_micros() {
            Some(now) => self.apply_sync_events_at(&events, now),
            None => Err(DbError::ClockBeforeEpoch),
        }
    }

    fn hand_over(&self, e: &EventRow) -> (r: SyncEvent)
        requires
            self.wf(),
        ensures
            r@ == model::handed_over(e@, self@.clips),
    {
        match self.find_uuid(e.clip_uuid.as_str()) {
            Some(i) => {
                let c = &self.clips[i];
                assert(self@.clips[i as int] == c@);
                let gone = c.is_deleted && !same(e.event_type.as_str(), "DELETE");
                SyncEvent {
                    event_type: if gone {
                        "DELETE".to_owned()
                    } else {
                        e.event_type.clone()
                    },
                    clip_uuid: e.clip_uuid.clone(),
                    device_id: e.device_id.clone(),
                    vector_clock: e.vector_clock,
                    timestamp: e.timestamp,
                    content_type: match &e.content_type {
                        Some(t) => Some(t.clone()),
                        None => Some(c.content_type.clone()),
                    },
                    payload: if gone {
                        None
                    } else {
                        match &e.payload {
                            Some(p) => Some(copy_bytes(p)),
                            None => Some(copy_bytes(&c.encrypted_payload)),
                        }
                    },
                    has_attachment: match e.has_attachment {
                        Some(b) => Some(b),
                        None => Some(c.has_attachment),
                    },
                    attachment_path: match &e.attachment_path {
                        Some(p) => Some(p.clone()),
                        None => copy_opt_text(&c.attachment_path),
                    },
                    pinned: Some(c.pinned),
                    is_locked: Some(c.is_locked),
                }
            },
            None => SyncEvent {
                event_type: e.event_type.clone(),
                clip_uuid: e.clip_uuid.clone(),
                device_id: e.device_id.clone(),
                vector_clock: e.vector_clock,
                timestamp: e.timestamp,
                content_type: copy_opt_text(&e.content_type),
                payload: copy_opt_bytes(&e.payload),
                has_attachment: match e.has_attachment {
                    Some(b) => Some(b),
                    None => Some(false),
                },
                attachment_path: copy_opt_text(&e.attachment_path),
                pinned: None,
                is_locked: None,
            },
        }
    }

    /// The events that a device with those clocks does not have yet, in the
    /// order of the log: up to the limit, but one at least.
    pub fn get_missing_events(&self, peer_clocks: &Clocks, limit: i64) -> (r: Vec<SyncEvent>)
        requires
            self.wf(),
            peer_clocks.wf(),
        ensures
            tables::sync_views(r@) == self@.missing_events(peer_clocks@, limit as int),
    {
        let ghost p = |e: EventView| e.vector_clock > model::clock_for(peer_clocks@, e.device_id);
        let ghost events = self@.events;
        let ghost clips = self@.clips;
        let ghost most = model::larger(limit as int, 1);
        let mut out: Vec<SyncEvent> = Vec::new();
        let mut i: usize = 0;
        proof {
            reveal(Seq::filter);
            assert(tables::sync_views(out@) =~= model::all_handed_over(events.take(0).filter(p), clips));
        }
        while i < self.events.len()
            invariant
                self.wf(),
                peer_clocks.wf(),
                i <= self.events@.len(),
                events == self@.events,
                clips == self@.clips,
                most == model::larger(limit as int, 1),
                p == (|e: EventView| e.vector_clock > model::clock_for(peer_clocks@, e.device_id)),
                tables::sync_views(out@) == model::all_handed_over(events.take(i as int).filter(p), clips),
                out@.len() < most,
            decreases self.events@.len() - i,
        {
            let e = &self.events[i];
            let ghost so_far = out@;
            proof {
                assert(events[i as int] == e@);
                seqs::filter_step(events, p, i as int);
            }
            let have: i64 = match peer_clocks.get(e.device_id.as_str()) {
                Some(n) => n,
                None => 0,
            };
            if e.vector_clock > have {
                let handed = self.hand_over(e);
                let ghost h = handed@;
                out.push(handed);
                proof {
                    assert(tables::sync_views(out@) =~= tables::sync_views(so_far).push(h));
                    assert(model::all_handed_over(events.take(i as int + 1).filter(p), clips)
                        =~= model::all_handed_over(events.take(i as int).filter(p), clips).push(h));
                }
                if out.len() as i128 >= limit as i128 {
                    proof {
                        let part = events.take(i as int + 1).filter(p);
                        assert(tables::sync_views(out@).len() == out@.len());
                        assert(part.len() == most);
                        assert(events.take(i as int + 1).is_prefix_of(events));
                        events.take(i as int + 1).lemma_filter_monotone(events, p);
                        assert(model::up_to(events.filter(p), most) =~= part);
                    }
                    return out;
                }
            }
            i += 1;
        }
        proof {
            assert(events.take(i as int) =~= events);
            assert(tables::sync_views(out@).len() == out@.len());
        }
        out
    }

    fn is_own(&self, e: &EventRow) -> (r: bool)
        ensures
            r == (e@.device_id == self@.device_id),
    {
        same(e.device_id.as_str(), self.device_id.as_str())
    }

    fn count_own_events(&self) -> (r: usize)
        ensures
            r == self@.events.filter(|e: EventView| e.device_id == self@.device_id).len(),
    {
        let ghost p = |e: EventView| e.device_id == self@.device_id;
        let mut n: usize = 0;
        let mut i: usize = 0;
        proof {
            reveal(Seq::filter);
            assert(self@.events.take(0).filter(p).len() == 0);
        }
        while i < self.events.len()
            invariant
                n <= i <= self.events@.len(),
                p == (|e: EventView| e.device_id == self@.device_id),
                n == self@.events.take(i as int).filter(p).len(),
            decreases self.events@.len() - i,
        {
            proof {
                assert(self@.events[i as int] == self.events@[i as int]@);
                seqs::filter_step(self@.events, p, i as int);
            }
            if self.is_own(&self.events[i]) {
                n += 1;
            }
            i += 1;
        }
        assert(self@.events.take(i as int) =~= self@.events);
        n
    }

    /// The last events of this device, in the order of the log; a negative
    /// limit is none.
    pub fn get_recent_events(&self, limit: i64) -> (r: Vec<SyncEvent>)
        requires
            self.wf(),
        ensures
            tables::sync_views(r@) == self@.recent_events(limit as int),
    {
        let ghost p = |e: EventView| e.device_id == self@.device_id;
        let ghost events = self@.events;
        let ghost clips = self@.clips;
        let own = self.count_own_events();
        let passed_over: usize = if limit < 0 || own as i128 <= limit as i128 {
            0
        } else {
            (own as i128 - limit as i128) as usize
        };
        let mut out: Vec<SyncEvent> = Vec::new();
        let mut seen: usize = 0;
        let mut i: usize = 0;
        proof {
            reveal(Seq::filter);
            assert(tables::sync_views(out@) =~= Seq::<SyncEventView>::empty());
            assert(events.take(0).filter(p).skip(0) =~= Seq::<EventView>::empty());
            assert(model::all_handed_over(Seq::<EventView>::empty(), clips) =~= Seq::<SyncEventView>::empty());
        }
        while i < self.events.len()
            invariant
                self.wf(),
                seen <= i <= self.events@.len(),
                events == self@.events,
                clips == self@.clips,
                p == (|e: EventView| e.device_id == self@.device_id),
                seen == events.take(i as int).filter(p).len(),
                tables::sync_views(out@) == (if seen <= passed_over {
                    Seq::<SyncEventView>::empty()
                } else {
                    model::all_handed_over(events.take(i as int).filter(p).skip(passed_over as int), clips)
                }),
            decreases self.events@.len() - i,
        {
            let e = &self.events[i];
            let ghost so_far = out@;
            let ghost part = events.take(i as int).filter(p);
            proof {
                assert(events[i as int] == e@);
                seqs::filter_step(events, p, i as int);
            }
            if self.is_own(e) {
                if seen >= passed_over {
                    let handed = self.hand_over(e);
                    let ghost h = handed@;
                    out.push(handed);
                    proof {
                        assert(tables::sync_views(out@) =~= tables::sync_views(so_far).push(h));
                        let next = events.take(i as int + 1).filter(p);
                        assert(next == part.push(e@));
                        assert(model::all_handed_over(next.skip(passed_over as int), clips) =~= tables::sync_views(
                            so_far,
                        ).push(h));
                    }
                }
                seen += 1;
            }
            i += 1;
        }
        proof {
            assert(events.take(i as int) =~= events);
            let all = events.filter(p);
            assert(own == all.len());
            assert(model::last_up_to(all, limit as int) =~= all.skip(passed_over as int));
            if seen <= passed_over {
                assert(all.skip(passed_over as int) =~= Seq::<EventView>::empty());
                assert(model::all_handed_over(Seq::<EventView>::empty(), clips) =~= Seq::<SyncEventView>::empty());
            }
        }
        out
    }

    /// The largest clock among the events of this device; zero where it has
    /// made none.
    pub fn get_latest_hlc(&self) -> (r: i64)
        ensures
            r == self@.latest_hlc(),
    {
        let ghost p = |e: EventView| e.device_id == self@.device_id;
        let mut found = false;
        let mut m: i64 = 0;
        let mut i: usize = 0;
        proof {
            reveal(Seq::filter);
            assert(self@.events.take(0).filter(p) =~= Seq::<EventView>::empty());
        }
        while i < self.events.len()
            invariant
                i <= self.events@.len(),
                p == (|e: EventView| e.device_id == self@.device_id),
                found == (self@.events.take(i as int).filter(p).len() > 0),
                m == model::max_clock(self@.events.take(i as int).filter(p)),
            decreases self.events@.len() - i,
        {
            let ghost part = self@.events.take(i as int).filter(p);
            proof {
                assert(self@.events[i as int] == self.events@[i as int]@);
                seqs::filter_step(self@.events, p, i as int);
                assert(part.push(self@.events[i as int]).drop_last() =~= part);
            }
            if self.is_own(&self.events[i]) {
                if !found || self.events[i].vector_clock > m {
                    m = self.events[i].vector_clock;
                }
                found = true;
            }
            i += 1;
        }
        assert(self@.events.take(i as int) =~= self@.events);
        m
    }

    /// The clip of an event with the largest clock.
    pub fn get_latest_event_uuid(&self) -> (r: Option<String>)
        ensures
            match r {
                Some(u) => exists|i: int|
                    0 <= i < self@.events.len() && (#[trigger] self@.events[i]).clip_uuid == u@
                        && self@.events[i].vector_clock == model::max_clock(self@.events),
                None => self@.events.len() == 0,
            },
    {
        if self.events.len() == 0 {
            return None;
        }
        let mut at: usize = 0;
        let mut i: usize = 1;
        assert(self@.events.take(1).len() == 1);
        while i < self.events.len()
            invariant
                at < i <= self.events@.len(),
                self@.events[at as int].vector_clock == model::max_clock(self@.events.take(i as int)),
            decreases self.events@.len() - i,
        {
            assert(self@.events.take(i as int + 1).drop_last() =~= self@.events.take(i as int));
            if self.events[i].vector_clock > self.events[at].vector_clock {
                at = i;
            }
            i += 1;
        }
        assert(self@.events.take(i as int) =~= self@.events);
        assert(self@.events[at as int] == self.events@[at as int]@);
        Some(self.events[at].clip_uuid.clone())
    }

    /// The events past a clock, in the order of their clocks. Events with equal
    /// clocks come in some order.
    pub fn get_events_since_hlc(&self, hlc_cursor: i64) -> (r: Vec<SyncEvent>)
        requires
            self.wf(),
        ensures
            exists|picked: Seq<EventView>|
                model::by_clock(picked) && picked.to_multiset() == self@.events.filter(
                    |e: EventView| e.vector_clock > hlc_cursor,
                ).to_multiset() && tables::sync_views(r@) == #[trigger] model::all_handed_over(picked, self@.clips),
    {
        let ghost p = |e: EventView| e.vector_clock > hlc_cursor;
        let ghost events = self@.events;
        let ghost at = |k: usize| events[k as int];
        let mut order: Vec<usize> = Vec::new();
        let mut i: usize = 0;
        proof {
            reveal(Seq::filter);
            assert(order@.map_values(at) =~= events.take(0).filter(p));
        }
        while i < self.events.len()
            invariant
                i <= self.events@.len(),
                events == self@.events,
                p == (|e: EventView| e.vector_clock > hlc_cursor),
                at == (|k: usize| events[k as int]),
                forall|k: int| 0 <= k < order@.len() ==> #[trigger] order@[k] < self.events@.len(),
                model::by_clock(order@.map_values(at)),
                order@.map_values(at).to_multiset() == events.take(i as int).filter(p).to_multiset(),
            decreases self.events@.len() - i,
        {
            let ghost picked = order@.map_values(at);
            proof {
                assert(events[i as int] == self.events@[i as int]@);
                seqs::filter_step(events, p, i as int);
            }
            if self.events[i].vector_clock > hlc_cursor {
                let clock = self.events[i].vector_clock;
                let mut j: usize = order.len();
                while j > 0 && self.events[order[j - 1]].vector_clock > clock
                    invariant
                        j <= order@.len(),
                        events == self@.events,
                        at == (|k: usize| events[k as int]),
                        picked == order@.map_values(at),
                        forall|k: int| 0 <= k < order@.len() ==> #[trigger] order@[k] < self.events@.len(),
                        forall|k: int| j <= k < order@.len() ==> (#[trigger] picked[k]).vector_clock > clock,
                    decreases j,
                {
                    assert(picked[j - 1] == self.events@[order@[j - 1] as int]@);
                    j -= 1;
                }
                proof {
                    if j > 0 {
                        assert(picked[j - 1] == self.events@[order@[j - 1] as int]@);
                    }
                    model::insertion_keeps_clock_order(picked, j as int, events[i as int]);
                    to_multiset_insert(picked, j as int, events[i as int]);
                    to_multiset_build(events.take(i as int).filter(p), events[i as int]);
                }
                order.insert(j, i);
                assert(order@.map_values(at) =~= picked.insert(j as int, events[i as int]));
            }
            i += 1;
        }
        assert(events.take(i as int) =~= events);
        let ghost picked = order@.map_values(at);
        let mut out: Vec<SyncEvent> = Vec::new();
        let mut k: usize = 0;
        assert(tables::sync_views(out@) =~= model::all_handed_over(picked.take(0), self@.clips));
        while k < order.len()
            invariant
                self.wf(),
                k <= order@.len(),
                events == self@.events,
                at == (|k: usize| events[k as int]),
                picked == order@.map_values(at),
                forall|k: int| 0 <= k < order@.len() ==> #[trigger] order@[k] < self.events@.len(),
                tables::sync_views(out@) == model::all_handed_over(picked.take(k as int), self@.clips),
            decreases order@.len() - k,
        {
            let ghost so_far = out@;
            let handed = self.hand_over(&self.events[order[k]]);
            let ghost h = handed@;
            out.push(handed);
            proof {
                assert(picked[k as int] == self.events@[order@[k as int] as int]@);
                assert(tables::sync_views(out@) =~= tables::sync_views(so_far).push(h));
                assert(model::all_handed_over(picked.take(k as int + 1), self@.clips) =~= model::all_handed_over(
                    picked.take(k as int),
                    self@.clips,
                ).push(h));
            }
            k += 1;
        }
        assert(picked.take(k as int) =~= picked);
        out
    }
}

/// Once an event has failed, those after it change nothing.
proof fn failure_stays(db: DbView, evts: Seq<SyncEventView>, i: int, now: int)
    requires
        0 <= i <= evts.len(),
        db.apply_sync_events(evts.take(i), now).1 is Err,
    ensures
        db.apply_sync_events(evts, now) == db.apply_sync_events(evts.take(i), now),
    decreases evts.len() - i,
{
    if i == evts.len() {
        assert(evts.take(i) =~= evts);
    } else {
        assert(evts.take(i + 1).drop_last() =~= evts.take(i));
        failure_stays(db, evts, i + 1, now);
    }
}

} // verus!
