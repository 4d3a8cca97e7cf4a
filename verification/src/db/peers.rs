//! The devices that take part, and what they have acknowledged.
use super::Database;
use crate::model;
use crate::model::{DbError, DbView};
use crate::primitives::now_seconds;
use crate::seqs;
use crate::tables;
use crate::tables::{EventRow, EventView, KnownPeer, KnownPeerView, Clocks, SyncStateRow, SyncStateView};
use crate::text::same;
use vstd::prelude::*;
use vstd::seq_lib::*;

verus! {

broadcast use vstd::seq_lib::group_seq_properties;

proof fn filtered_states_unique(states: Seq<SyncStateView>, p: spec_fn(SyncStateView) -> bool)
    requires
        model::states_unique(states),
    ensures
        model::states_unique(states.filter(p)),
{
    let f = states.filter(p);
    assert forall|i: int, j: int| 0 <= i < j < f.len() implies (#[trigger] f[i]).author_id != (
    #[trigger] f[j]).author_id || f[i].peer_id != f[j].peer_id by {
        let (a, b) = seqs::filter_keeps_order(states, p, i, j);
        assert(states[a].author_id != states[b].author_id || states[a].peer_id != states[b].peer_id);
    }
}

proof fn filtered_peers_unique(peers: Seq<KnownPeerView>, p: spec_fn(KnownPeerView) -> bool)
    requires
        model::peers_unique(peers),
    ensures
        model::peers_unique(peers.filter(p)),
{
    let f = peers.filter(p);
    assert forall|i: int, j: int| 0 <= i < j < f.len() implies (#[trigger] f[i]).device_id != (
    #[trigger] f[j]).device_id by {
        let (a, b) = seqs::filter_keeps_order(peers, p, i, j);
        assert(peers[a].device_id != peers[b].device_id);
    }
}

proof fn filtered_events_wf(events: Seq<EventView>, event_seq: int, p: spec_fn(EventView) -> bool)
    requires
        model::events_ordered(events, event_seq),
        model::events_unique(events),
    ensures
        model::events_ordered(events.filter(p), event_seq),
        model::events_unique(events.filter(p)),
{
    let f = events.filter(p);
    assert forall|i: int, j: int| 0 <= i < j < f.len() implies (#[trigger] f[i]).id < (#[trigger] f[j]).id
        && !model::same_event(f[i], f[j]) by {
        let (a, b) = seqs::filter_keeps_order(events, p, i, j);
        assert(events[a].id < events[b].id);
    }
    assert forall|i: int| 0 <= i < f.len() implies (#[trigger] f[i]).id <= event_seq by {
        let a = seqs::filter_origin(events, p, i);
        assert(events[a].id <= event_seq);
    }
}

impl Database {
    /// Notes that a device was seen, at a reading of the machine's clock in
    /// seconds.
    pub fn upsert_known_peer_at(&mut self, device_id: &str, name: &str, last_seen: i64)
        requires
            old(self).wf(),
        ensures
            final(self).wf(),
            final(self)@ == old(self)@.with_peer(device_id@, name@, last_seen as int),
    {
        let ghost before = *self;
        let ghost row = KnownPeerView { device_id: device_id@, name: name@, last_seen: last_seen as int };
        match self.find_peer(device_id) {
            Some(i) => {
                proof {
                    let v = before@.peers;
                    let k = choose|k: int| 0 <= k < v.len() && (#[trigger] v[k]).device_id == device_id@;
                    assert(k == i);
                }
                self.peers.set(
                    i,
                    KnownPeer { device_id: device_id.to_owned(), name: name.to_owned(), last_seen },
                );
                assert(self@.peers =~= before@.peers.update(i as int, row));
            },
            None => {
                self.peers.push(KnownPeer { device_id: device_id.to_owned(), name: name.to_owned(), last_seen });
                proof {
                    assert(self@.peers =~= before@.peers.push(row));
                    let v = self@.peers;
                    assert forall|i: int, j: int| 0 <= i < j < v.len() implies (#[trigger] v[i]).device_id != (
                    #[trigger] v[j]).device_id by {
                        assert(v[i] == before@.peers[i]);
                        if j < v.len() - 1 {
                            assert(v[j] == before@.peers[j]);
                        }
                    }
                }
            },
        }
    }

    /// Notes that a device was seen now.
    pub fn upsert_known_peer(&mut self, device_id: &str, name: &str) -> (r: Result<(), DbError>)
        requires
            old(self).wf(),
        ensures
            final(self).wf(),
            match r {
                Ok(_) => exists|last_seen: int|
                    final(self)@ == #[trigger] old(self)@.with_peer(device_id@, name@, last_seen),
                Err(e) => e == DbError::ClockBeforeEpoch && final(self)@ == old(self)@,
            },
    {
        match now_seconds() {
            Some(last_seen) => {
                self.upsert_known_peer_at(device_id, name, last_seen);
                Ok(())
            },
            None => Err(DbError::ClockBeforeEpoch),
        }
    }

    /// The known devices, those seen last first. Devices seen in the same
    /// second come in some order.
    pub fn get_known_peers(&self) -> (r: Vec<KnownPeer>)
        ensures
            model::by_last_seen(tables::peer_views(r@)),
            tables::peer_views(r@).to_multiset() == self@.peers.to_multiset(),
    {
        let ghost peers = self@.peers;
        let mut out: Vec<KnownPeer> = Vec::new();
        let mut i: usize = 0;
        assert(tables::peer_views(out@) =~= peers.take(0));
        while i < self.peers.len()
            invariant
                i <= self.peers@.len(),
                peers == self@.peers,
                model::by_last_seen(tables::peer_views(out@)),
                tables::peer_views(out@).to_multiset() == peers.take(i as int).to_multiset(),
            decreases self.peers@.len() - i,
        {
            let ghost sorted = tables::peer_views(out@);
            let seen = self.peers[i].last_seen;
            let mut j: usize = out.len();
            while j > 0 && out[j - 1].last_seen < seen
                invariant
                    j <= out@.len(),
                    sorted == tables::peer_views(out@),
                    forall|k: int| j <= k < out@.len() ==> (#[trigger] sorted[k]).last_seen < seen,
                decreases j,
            {
                assert(sorted[j - 1] == out@[j - 1]@);
                j -= 1;
            }
            proof {
                assert(peers[i as int] == self.peers@[i as int]@);
                if j > 0 {
                    assert(sorted[j - 1] == out@[j - 1]@);
                }
                model::insertion_keeps_seen_order(sorted, j as int, peers[i as int]);
                to_multiset_insert(sorted, j as int, peers[i as int]);
                to_multiset_build(peers.take(i as int), peers[i as int]);
                assert(peers.take(i as int + 1) =~= peers.take(i as int).push(peers[i as int]));
            }
            let row = self.peers[i].copy();
            out.insert(j, row);
            assert(tables::peer_views(out@) =~= sorted.insert(j as int, peers[i as int]));
            i += 1;
        }
        assert(peers.take(i as int) =~= peers);
        out
    }

    /// The clocks that this device has acknowledged, by author.
    pub fn get_all_sync_states(&self) -> (r: Clocks)
        requires
            self.wf(),
        ensures
            r.wf(),
            r@ == self@.sync_states(),
    {
        let ghost states = self@.states;
        let ghost me = self@.device_id;
        let mut out = Clocks::new();
        let mut i: usize = 0;
        while i < self.states.len()
            invariant
                self.wf(),
                out.wf(),
                i <= self.states@.len(),
                states == self@.states,
                me == self@.device_id,
                forall|author: Seq<char>| #[trigger]
                    out@.dom().contains(author) <==> exists|j: int|
                        0 <= j < i && (#[trigger] states[j]).author_id == author && states[j].peer_id == me,
                forall|j: int|
                    0 <= j < i && (#[trigger] states[j]).peer_id == me ==> out@[states[j].author_id]
                        == states[j].acknowledged_clock,
            decreases self.states@.len() - i,
        {
            let ghost prior = out@;
            proof {
                assert(states[i as int] == self.states@[i as int]@);
            }
            if same(self.states[i].peer_id.as_str(), self.device_id.as_str()) {
                out.insert(self.states[i].author_id.clone(), self.states[i].acknowledged_clock);
                proof {
                    let key = states[i as int].author_id;
                    assert forall|author: Seq<char>| #[trigger] out@.dom().contains(author) implies exists|j: int|
                        0 <= j < i + 1 && (#[trigger] states[j]).author_id == author && states[j].peer_id == me by {
                        if author == key {
                            assert(states[i as int].author_id == author);
                        } else {
                            assert(prior.dom().contains(author));
                        }
                    }
                    assert forall|author: Seq<char>|
                        (exists|j: int|
                            0 <= j < i + 1 && (#[trigger] states[j]).author_id == author && states[j].peer_id
                                == me) implies #[trigger] out@.dom().contains(author) by {
                        let j = choose|j: int|
                            0 <= j < i + 1 && (#[trigger] states[j]).author_id == author && states[j].peer_id == me;
                        if j < i {
                            assert(prior.dom().contains(author));
                        }
                    }
                    assert forall|j: int| 0 <= j < i + 1 && (#[trigger] states[j]).peer_id == me implies
                        out@[states[j].author_id] == states[j].acknowledged_clock by {
                        if j < i {
                            assert(states[j].author_id != states[i as int].author_id);
                        }
                    }
                }
            }
            i += 1;
        }
        proof {
            let want = self@.sync_states();
            assert forall|author: Seq<char>| #[trigger] out@.dom().contains(author) <==> want.dom().contains(
                author,
            ) by {
                if out@.dom().contains(author) {
                    let j = choose|j: int|
                        0 <= j < i && (#[trigger] states[j]).author_id == author && states[j].peer_id == me;
                    assert(states[j].author_id == author && states[j].peer_id == me);
                }
                if want.dom().contains(author) {
                    let j = choose|j: int|
                        0 <= j < states.len() && (#[trigger] states[j]).author_id == author && states[j].peer_id == me;
                    assert(states[j].author_id == author);
                }
            }
            assert forall|author: Seq<char>| out@.dom().contains(author) implies #[trigger] out@[author]
                == want[author] by {
                assert(want.dom().contains(author));
                let j = choose|j: int|
                    0 <= j < states.len() && (#[trigger] states[j]).author_id == author && states[j].peer_id == me;
                assert(out@[states[j].author_id] == states[j].acknowledged_clock);
            }
            assert(out@ =~= want);
        }
        out
    }

    fn drop_states(&mut self, peer_id: &str)
        requires
            old(self).wf(),
        ensures
            final(self).wf(),
            final(self)@ == (DbView {
                states: old(self)@.states.filter(|s: SyncStateView| s.peer_id != peer_id@),
                ..old(self)@
            }),
    {
        let ghost before = *self;
        let ghost kept = |s: SyncStateView| s.peer_id != peer_id@;
        let mut all: Vec<SyncStateRow> = Vec::new();
        std::mem::swap(&mut all, &mut self.states);
        proof {
            reveal(Seq::filter);
            assert(self@.states =~= before@.states.take(0).filter(kept));
        }
        for s in it: all.into_iter()
            invariant
                before == *old(self),
                it.seq() == before.states@,
                kept == (|s: SyncStateView| s.peer_id != peer_id@),
                self@ == (DbView { states: self@.states, ..before@ }),
                self@.states == before@.states.take(it.index() as int).filter(kept),
        {
            let ghost i = it.index() as int;
            let ghost prior = self.states@;
            proof {
                assert(before@.states[i] == s@);
                seqs::filter_step(before@.states, kept, i);
            }
            if !same(s.peer_id.as_str(), peer_id) {
                self.states.push(s);
                assert(self@.states =~= tables::state_views(prior).push(s@));
            }
        }
        proof {
            assert(before@.states.take(before@.states.len() as int) =~= before@.states);
            filtered_states_unique(before@.states, kept);
        }
    }

    fn drop_peers(&mut self, device_id: &str)
        requires
            old(self).wf(),
        ensures
            final(self).wf(),
            final(self)@ == (DbView {
                peers: old(self)@.peers.filter(|p: KnownPeerView| p.device_id != device_id@),
                ..old(self)@
            }),
    {
        let ghost before = *self;
        let ghost kept = |p: KnownPeerView| p.device_id != device_id@;
        let mut all: Vec<KnownPeer> = Vec::new();
        std::mem::swap(&mut all, &mut self.peers);
        proof {
            reveal(Seq::filter);
            assert(self@.peers =~= before@.peers.take(0).filter(kept));
        }
        for p in it: all.into_iter()
            invariant
                before == *old(self),
                it.seq() == before.peers@,
                kept == (|p: KnownPeerView| p.device_id != device_id@),
                self@ == (DbView { peers: self@.peers, ..before@ }),
                self@.peers == before@.peers.take(it.index() as int).filter(kept),
        {
            let ghost i = it.index() as int;
            let ghost prior = self.peers@;
            proof {
                assert(before@.peers[i] == p@);
                seqs::filter_step(before@.peers, kept, i);
            }
            if !same(p.device_id.as_str(), device_id) {
                self.peers.push(p);
                assert(self@.peers =~= tables::peer_views(prior).push(p@));
            }
        }
        proof {
            assert(before@.peers.take(before@.peers.len() as int) =~= before@.peers);
            filtered_peers_unique(before@.peers, kept);
        }
    }

    /// Forgets a device: it is neither known nor acknowledging.
    pub fn remove_peer_sync_state(&mut self, peer_id: &str)
        requires
            old(self).wf(),
        ensures
            final(self).wf(),
            final(self)@ == old(self)@.without_peer(peer_id@),
    {
        self.drop_states(peer_id);
        self.drop_peers(peer_id);
    }

    /// Forgets all devices.
    pub fn clear_all_peers(&mut self)
        requires
            old(self).wf(),
        ensures
            final(self).wf(),
            final(self)@ == (DbView { states: Seq::empty(), peers: Seq::empty(), ..old(self)@ }),
            final(self)@ == old(self)@.without_peers(),
    {
        self.states.clear();
        self.peers.clear();
        assert(self@.states =~= Seq::empty());
        assert(self@.peers =~= Seq::empty());
    }

    fn smallest_acknowledged(&self) -> (r: i64)
        ensures
            r == model::min_acknowledged(
                self@.states.filter(|s: SyncStateView| s.author_id == self@.device_id),
            ),
    {
        let ghost p = |s: SyncStateView| s.author_id == self@.device_id;
        let mut found = false;
        let mut m: i64 = 0;
        let mut i: usize = 0;
        proof {
            reveal(Seq::filter);
            assert(self@.states.take(0).filter(p) =~= Seq::<SyncStateView>::empty());
        }
        while i < self.states.len()
            invariant
                i <= self.states@.len(),
                p == (|s: SyncStateView| s.author_id == self@.device_id),
                found == (self@.states.take(i as int).filter(p).len() > 0),
                m == model::min_acknowledged(self@.states.take(i as int).filter(p)),
            decreases self.states@.len() - i,
        {
            let ghost part = self@.states.take(i as int).filter(p);
            proof {
                assert(self@.states[i as int] == self.states@[i as int]@);
                seqs::filter_step(self@.states, p, i as int);
                assert(part.push(self@.states[i as int]).drop_last() =~= part);
            }
            if same(self.states[i].author_id.as_str(), self.device_id.as_str()) {
                if !found || self.states[i].acknowledged_clock < m {
                    m = self.states[i].acknowledged_clock;
                }
                found = true;
            }
            i += 1;
        }
        assert(self@.states.take(i as int) =~= self@.states);
        m
    }

    fn drop_own_events(&mut self, upto: i64)
        requires
            old(self).wf(),
        ensures
            final(self).wf(),
            final(self)@ == (DbView {
                events: old(self)@.events.filter(
                    |e: EventView| !(e.vector_clock <= upto && e.device_id == old(self)@.device_id),
                ),
                ..old(self)@
            }),
    {
        let ghost before = *self;
        let ghost kept = |e: EventView| !(e.vector_clock <= upto && e.device_id == before@.device_id);
        let mut all: Vec<EventRow> = Vec::new();
        std::mem::swap(&mut all, &mut self.events);
        proof {
            reveal(Seq::filter);
            assert(self@.events =~= before@.events.take(0).filter(kept));
        }
        for e in it: all.into_iter()
            invariant
                before == *old(self),
                it.seq() == before.events@,
                kept == (|e: EventView| !(e.vector_clock <= upto && e.device_id == before@.device_id)),
                self@ == (DbView { events: self@.events, ..before@ }),
                self@.events == before@.events.take(it.index() as int).filter(kept),
        {
            let ghost i = it.index() as int;
            let ghost prior = self.events@;
            proof {
                assert(before@.events[i] == e@);
                seqs::filter_step(before@.events, kept, i);
            }
            if !(e.vector_clock <= upto && same(e.device_id.as_str(), self.device_id.as_str())) {
                self.events.push(e);
                assert(self@.events =~= tables::event_views(prior).push(e@));
            }
        }
        proof {
            assert(before@.events.take(before@.events.len() as int) =~= before@.events);
            filtered_events_wf(before@.events, before@.event_seq, kept);
        }
    }

    /// Drops the events of this device that every peer has followed.
    pub fn prune_tombstones(&mut self)
        requires
            old(self).wf(),
        ensures
            final(self).wf(),
            final(self)@ == old(self)@.pruned(),
    {
        if self.states.len() == 0 {
            return;
        }
        let upto = self.smallest_acknowledged();
        self.drop_own_events(upto);
    }
}

} // verus!
