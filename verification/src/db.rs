//! The history store of one device.
use crate::model;
use crate::model::{DbError, DbView};
use crate::primitives;
use crate::primitives::{hex_encode, now_micros, sha256};
use crate::seqs;
use crate::tables;
use crate::tables::{
    bytes_of, copy_opt_text, ClipRow, ClipView, EventRow, EventView, KnownPeer, SyncStateRow,
};
use crate::text::same;
use vstd::prelude::*;

pub mod changes;
pub mod exchange;
pub mod loading;
pub mod peers;
pub mod reading;
pub mod saving;

verus! {

broadcast use vstd::seq_lib::group_seq_properties;

/// The history store of one device.
pub struct Database {
    /// The device whose history this is.
    pub device_id: String,
    clips: Vec<ClipRow>,
    clip_seq: i64,
    events: Vec<EventRow>,
    event_seq: i64,
    states: Vec<SyncStateRow>,
    peers: Vec<KnownPeer>,
}

impl View for Database {
    type V = DbView;

    closed spec fn view(&self) -> DbView {
        DbView {
            device_id: self.device_id@,
            clips: tables::clip_views(self.clips@),
            clip_seq: self.clip_seq as int,
            events: tables::event_views(self.events@),
            event_seq: self.event_seq as int,
            states: tables::state_views(self.states@),
            peers: tables::peer_views(self.peers@),
        }
    }
}

/// Which clips a change reaches.
enum Selected<'a> {
    Id(i64),
    Hash(&'a str),
    Uuid(&'a str),
    Unlocked,
    All,
}

impl<'a> Selected<'a> {
    spec fn holds(self, c: ClipView) -> bool {
        match self {
            Selected::Id(id) => c.id == id,
            Selected::Hash(h) => c.payload_hash == Some(h@),
            Selected::Uuid(u) => c.uuid == Some(u@),
            Selected::Unlocked => !c.is_locked,
            Selected::All => true,
        }
    }

    fn reaches(&self, c: &ClipRow) -> (r: bool)
        ensures
            r == self.holds(c@),
    {
        match self {
            Selected::Id(id) => c.id == *id,
            Selected::Hash(h) => match &c.payload_hash {
                Some(x) => same(x.as_str(), h),
                None => false,
            },
            Selected::Uuid(u) => match &c.uuid {
                Some(x) => same(x.as_str(), u),
                None => false,
            },
            Selected::Unlocked => !c.is_locked,
            Selected::All => true,
        }
    }
}

/// What a change does to a clip.
enum Change {
    Pin(bool),
    Lock(bool),
    Delete,
    DeleteAndUnpin,
    Restore,
}

impl Change {
    spec fn made(self, c: ClipView) -> ClipView {
        match self {
            Change::Pin(b) => ClipView { pinned: b, ..c },
            Change::Lock(b) => ClipView { is_locked: b, ..c },
            Change::Delete => ClipView { is_deleted: true, ..c },
            Change::DeleteAndUnpin => ClipView { is_deleted: true, pinned: false, ..c },
            Change::Restore => ClipView { is_deleted: false, ..c },
        }
    }
}

/// Which clips leave the store.
enum Dropped {
    Id(i64),
    Deleted,
    DeletedBefore(i128),
}

impl Dropped {
    spec fn holds(self, c: ClipView) -> bool {
        match self {
            Dropped::Id(id) => c.id == id,
            Dropped::Deleted => c.is_deleted,
            Dropped::DeletedBefore(t) => c.is_deleted && c.timestamp < t,
        }
    }

    fn reaches(&self, c: &ClipRow) -> (r: bool)
        ensures
            r == self.holds(c@),
    {
        match self {
            Dropped::Id(id) => c.id == *id,
            Dropped::Deleted => c.is_deleted,
            Dropped::DeletedBefore(t) => c.is_deleted && (c.timestamp as i128) < *t,
        }
    }
}

/// The written digest of a payload.
pub open spec fn payload_hash(payload: Seq<u8>) -> Seq<char> {
    primitives::hex_text(primitives::sha256_digest(payload))
}

/// What a successful insertion makes of the history: no more clips than the
/// limit are neither pinned, locked nor deleted, and of the clips that were not
/// deleted none was touched, the new one standing behind them.
pub open spec fn keeps_to_limit(before: Seq<ClipView>, after: Seq<ClipView>, limit: int) -> bool {
    let live = model::live_clips(after);
    &&& model::loose_clips(after).len() <= model::actual_limit(limit)
    &&& live.len() > 0
    &&& live.drop_last() == model::live_clips(before)
}

/// The number of a new row, or the error.
pub open spec fn row_result(r: Result<i64, DbError>) -> Result<int, DbError> {
    match r {
        Ok(n) => Ok(n as int),
        Err(e) => Err(e),
    }
}

/// No event is past the largest clock of its log.
pub proof fn max_clock_is_largest(events: Seq<EventView>, i: int)
    requires
        0 <= i < events.len(),
    ensures
        events[i].vector_clock <= model::max_clock(events),
    decreases events.len(),
{
    if events.len() > 1 && i < events.len() - 1 {
        max_clock_is_largest(events.drop_last(), i);
    }
}

proof fn fresh_clock_is_not_logged(events: Seq<EventView>, clip_uuid: Seq<char>, device_id: Seq<char>, clock: int)
    requires
        clock > model::max_clock(events),
    ensures
        !model::logs(events, clip_uuid, device_id, clock),
{
    assert forall|i: int| 0 <= i < events.len() implies (#[trigger] events[i]).vector_clock != clock by {
        max_clock_is_largest(events, i);
    }
}

proof fn filtered_clips_wf(clips: Seq<ClipView>, clip_seq: int, p: spec_fn(ClipView) -> bool)
    requires
        model::clips_wf(clips, clip_seq),
    ensures
        model::clips_wf(clips.filter(p), clip_seq),
{
    let f = clips.filter(p);
    assert forall|i: int, j: int| 0 <= i < j < f.len() implies (#[trigger] f[i]).id < (#[trigger] f[j]).id && (
    f[i].uuid is Some ==> f[i].uuid != f[j].uuid) by {
        let (a, b) = seqs::filter_keeps_order(clips, p, i, j);
        assert(clips[a].id < clips[b].id);
    }
    assert forall|i: int| 0 <= i < f.len() implies (#[trigger] f[i]).id <= clip_seq by {
        let a = seqs::filter_origin(clips, p, i);
        assert(clips[a].id <= clip_seq);
    }
}

impl Database {
    /// What holds of every store.
    pub open spec fn wf(&self) -> bool {
        self@.wf()
    }

    /// The store of a device with nothing in it.
    pub fn new(device_id: String) -> (r: Database)
        ensures
            r.wf(),
            r@ == (DbView {
                device_id: device_id@,
                clips: Seq::empty(),
                clip_seq: 0,
                events: Seq::empty(),
                event_seq: 0,
                states: Seq::empty(),
                peers: Seq::empty(),
            }),
    {
        let r = Database {
            device_id,
            clips: Vec::new(),
            clip_seq: 0,
            events: Vec::new(),
            event_seq: 0,
            states: Vec::new(),
            peers: Vec::new(),
        };
        assert(r@.clips =~= Seq::empty());
        assert(r@.events =~= Seq::empty());
        assert(r@.states =~= Seq::empty());
        assert(r@.peers =~= Seq::empty());
        r
    }

    /// The device whose history this is.
    pub fn device_id(&self) -> (r: &String)
        ensures
            r@ == self@.device_id,
    {
        &self.device_id
    }

    fn find_id(&self, id: i64) -> (r: Option<usize>)
        requires
            self.wf(),
        ensures
            match r {
                Some(i) => model::clip_at(self@.clips, id as int) == Some(i as int) && i < self.clips@.len()
                    && self.clips@[i as int].id == id,
                None => model::clip_at(self@.clips, id as int) is None,
            },
    {
        let mut i: usize = 0;
        while i < self.clips.len()
            invariant
                self.wf(),
                i <= self.clips@.len(),
                forall|j: int| 0 <= j < i ==> (#[trigger] self.clips@[j]).id != id,
            decreases self.clips@.len() - i,
        {
            if self.clips[i].id == id {
                proof {
                    let v = self@.clips;
                    assert(v[i as int].id == id);
                    let k = choose|k: int| 0 <= k < v.len() && (#[trigger] v[k]).id == id;
                    assert(k == i) by {
                        if k < i {
                            assert(v[k].id < v[i as int].id);
                        } else if i < k {
                            assert(v[i as int].id < v[k].id);
                        }
                    }
                }
                return Some(i);
            }
            i += 1;
        }
        proof {
            assert forall|j: int| 0 <= j < self@.clips.len() implies (#[trigger] self@.clips[j]).id != id by {
                assert(self@.clips[j] == self.clips@[j]@);
            }
        }
        None
    }

    fn find_uuid(&self, uuid: &str) -> (r: Option<usize>)
        requires
            self.wf(),
        ensures
            match r {
                Some(i) => model::uuid_at(self@.clips, uuid@) == Some(i as int) && i < self.clips@.len()
                    && self@.clips[i as int].uuid == Some(uuid@),
                None => model::uuid_at(self@.clips, uuid@) is None,
            },
    {
        let mut i: usize = 0;
        while i < self.clips.len()
            invariant
                self.wf(),
                i <= self.clips@.len(),
                forall|j: int| 0 <= j < i ==> (#[trigger] self@.clips[j]).uuid != Some(uuid@),
            decreases self.clips@.len() - i,
        {
            assert(self@.clips[i as int] == self.clips@[i as int]@);
            if Selected::Uuid(uuid).reaches(&self.clips[i]) {
                proof {
                    let v = self@.clips;
                    let k = choose|k: int| 0 <= k < v.len() && (#[trigger] v[k]).uuid == Some(uuid@);
                    assert(v[i as int].uuid == Some(uuid@));
                    assert(k == i) by {
                        if k < i {
                            assert(v[k].uuid != v[i as int].uuid);
                        } else if i < k {
                            assert(v[i as int].uuid != v[k].uuid);
                        }
                    }
                }
                return Some(i);
            }
            i += 1;
        }
        None
    }

    fn find_state(&self, author: &str, peer: &str) -> (r: Option<usize>)
        requires
            self.wf(),
        ensures
            match r {
                Some(i) => model::state_at(self@.states, author@, peer@) == Some(i as int) && i < self.states@.len(),
                None => model::state_at(self@.states, author@, peer@) is None,
            },
    {
        let mut i: usize = 0;
        while i < self.states.len()
            invariant
                self.wf(),
                i <= self.states@.len(),
                forall|j: int|
                    0 <= j < i ==> !((#[trigger] self@.states[j]).author_id == author@ && self@.states[j].peer_id == peer@),
            decreases self.states@.len() - i,
        {
            assert(self@.states[i as int] == self.states@[i as int]@);
            if same(self.states[i].author_id.as_str(), author) && same(self.states[i].peer_id.as_str(), peer) {
                proof {
                    let v = self@.states;
                    assert(v[i as int].author_id == author@ && v[i as int].peer_id == peer@);
                    let k = choose|k: int|
                        0 <= k < v.len() && (#[trigger] v[k]).author_id == author@ && v[k].peer_id == peer@;
                    assert(k == i) by {
                        if k < i {
                            assert(v[k].author_id != v[i as int].author_id || v[k].peer_id != v[i as int].peer_id);
                        } else if i < k {
                            assert(v[i as int].author_id != v[k].author_id || v[i as int].peer_id != v[k].peer_id);
                        }
                    }
                }
                return Some(i);
            }
            i += 1;
        }
        None
    }

    fn find_peer(&self, device_id: &str) -> (r: Option<usize>)
        requires
            self.wf(),
        ensures
            match r {
                Some(i) => model::peer_at(self@.peers, device_id@) == Some(i as int) && i < self.peers@.len(),
                None => model::peer_at(self@.peers, device_id@) is None,
            },
    {
        let mut i: usize = 0;
        while i < self.peers.len()
            invariant
                self.wf(),
                i <= self.peers@.len(),
                forall|j: int| 0 <= j < i ==> (#[trigger] self@.peers[j]).device_id != device_id@,
            decreases self.peers@.len() - i,
        {
            assert(self@.peers[i as int] == self.peers@[i as int]@);
            if same(self.peers[i].device_id.as_str(), device_id) {
                proof {
                    let v = self@.peers;
                    assert(v[i as int].device_id == device_id@);
                    let k = choose|k: int| 0 <= k < v.len() && (#[trigger] v[k]).device_id == device_id@;
                    assert(k == i) by {
                        if k < i {
                            assert(v[k].device_id != v[i as int].device_id);
                        } else if i < k {
                            assert(v[i as int].device_id != v[k].device_id);
                        }
                    }
                }
                return Some(i);
            }
            i += 1;
        }
        None
    }

    fn change_clips(&mut self, selected: Selected<'_>, change: Change)
        requires
            old(self).wf(),
        ensures
            final(self).wf(),
            final(self)@ == old(self)@.with_clips(
                model::changed(old(self)@.clips, |c: ClipView| selected.holds(c), |c: ClipView| change.made(c)),
            ),
    {
        let ghost before = *self;
        let ghost want = model::changed(
            before@.clips,
            |c: ClipView| selected.holds(c),
            |c: ClipView| change.made(c),
        );
        let mut i: usize = 0;
        while i < self.clips.len()
            invariant
                before == *old(self),
                i <= self.clips@.len(),
                self.clips@.len() == before.clips@.len(),
                self@ == before@.with_clips(self@.clips),
                want == model::changed(before@.clips, |c: ClipView| selected.holds(c), |c: ClipView| change.made(c)),
                forall|j: int| 0 <= j < i ==> #[trigger] self@.clips[j] == want[j],
                forall|j: int| i <= j < self.clips@.len() ==> #[trigger] self.clips@[j] == before.clips@[j],
            decreases self.clips@.len() - i,
        {
            let ghost prior = self@.clips;
            let ghost c = before@.clips[i as int];
            assert(c == self.clips@[i as int]@);
            if selected.reaches(&self.clips[i]) {
                match change {
                    Change::Pin(b) => {
                        self.clips[i].pinned = b;
                    },
                    Change::Lock(b) => {
                        self.clips[i].is_locked = b;
                    },
                    Change::Delete => {
                        self.clips[i].is_deleted = true;
                    },
                    Change::DeleteAndUnpin => {
                        self.clips[i].is_deleted = true;
                        self.clips[i].pinned = false;
                    },
                    Change::Restore => {
                        self.clips[i].is_deleted = false;
                    },
                }
                assert(self@.clips[i as int] == change.made(c));
            }
            assert(self@.clips[i as int] == want[i as int]);
            assert forall|j: int| 0 <= j < i implies #[trigger] self@.clips[j] == want[j] by {
                assert(prior[j] == want[j]);
                assert(self@.clips[j] == prior[j]);
            }
            i += 1;
        }
        assert(self@.clips =~= want);
        proof {
            let v = before@.clips;
            assert forall|j: int| 0 <= j < v.len() implies (#[trigger] want[j]).id == v[j].id && want[j].uuid
                == v[j].uuid by {}
        }
    }

    fn drop_clips(&mut self, dropped: Dropped)
        requires
            old(self).wf(),
        ensures
            final(self).wf(),
            final(self)@ == old(self)@.with_clips(old(self)@.clips.filter(|c: ClipView| !dropped.holds(c))),
    {
        let ghost before = *self;
        let ghost kept = |c: ClipView| !dropped.holds(c);
        let mut all: Vec<ClipRow> = Vec::new();
        std::mem::swap(&mut all, &mut self.clips);
        proof {
            reveal(Seq::filter);
            assert(self@.clips =~= before@.clips.take(0).filter(kept));
        }
        for c in it: all.into_iter()
            invariant
                before == *old(self),
                it.seq() == before.clips@,
                kept == (|c: ClipView| !dropped.holds(c)),
                self@ == before@.with_clips(self@.clips),
                self@.clips == before@.clips.take(it.index() as int).filter(kept),
        {
            let ghost i = it.index() as int;
            let ghost prior = self.clips@;
            proof {
                assert(before@.clips[i] == c@);
                seqs::filter_step(before@.clips, kept, i);
            }
            if !dropped.reaches(&c) {
                self.clips.push(c);
                assert(self@.clips =~= tables::clip_views(prior).push(c@));
            }
        }
        proof {
            assert(before@.clips.take(before@.clips.len() as int) =~= before@.clips);
            filtered_clips_wf(before@.clips, before@.clip_seq, kept);
        }
    }

    fn max_clock(&self) -> (r: i64)
        requires
            self.wf(),
        ensures
            r == model::max_clock(self@.events),
    {
        if self.events.len() == 0 {
            return 0;
        }
        let mut m: i64 = self.events[0].vector_clock;
        let mut i: usize = 1;
        assert(self@.events.take(1).len() == 1);
        while i < self.events.len()
            invariant
                1 <= i <= self.events@.len(),
                m == model::max_clock(self@.events.take(i as int)),
            decreases self.events@.len() - i,
        {
            assert(self@.events.take(i as int + 1).drop_last() =~= self@.events.take(i as int));
            if self.events[i].vector_clock > m {
                m = self.events[i].vector_clock;
            }
            i += 1;
        }
        assert(self@.events.take(i as int) =~= self@.events);
        m
    }

    /// Whether a clock past all those in the log can still be written down.
    pub fn has_clock_left(&self) -> (r: bool)
        requires
            self.wf(),
        ensures
            r == self@.clock_left(),
    {
        self.max_clock() < i64::MAX
    }

    /// The clock of the next event, at a reading of the machine's clock.
    pub fn next_hlc_at(&self, physical: i64) -> (r: i64)
        requires
            self.wf(),
            self@.clock_left(),
        ensures
            r == model::next_hlc(self@.events, physical as int),
    {
        let next = self.max_clock() + 1;
        if physical >= next {
            physical
        } else {
            next
        }
    }

    /// The clock of the next event: not behind the machine's clock, and past
    /// every clock in the log.
    pub fn get_next_hlc(&self) -> (r: Result<i64, DbError>)
        requires
            self.wf(),
            self@.clock_left(),
        ensures
            match r {
                Ok(n) => exists|physical: int| n == #[trigger] model::next_hlc(self@.events, physical),
                Err(e) => e == DbError::ClockBeforeEpoch,
            },
    {
        match now_micros() {
            Some(physical) => Ok(self.next_hlc_at(physical)),
            None => Err(DbError::ClockBeforeEpoch),
        }
    }

    fn log_event(
        &mut self,
        event_type: String,
        clip_uuid: String,
        device_id: String,
        vector_clock: i64,
        timestamp: i64,
        content_type: Option<String>,
        payload: Option<Vec<u8>>,
        has_attachment: Option<bool>,
        attachment_path: Option<String>,
    )
        requires
            old(self).wf(),
            old(self)@.event_seq < model::max_row(),
            !model::logs(old(self)@.events, clip_uuid@, device_id@, vector_clock as int),
        ensures
            final(self).wf(),
            final(self)@ == old(self)@.logged(
                event_type@,
                clip_uuid@,
                device_id@,
                vector_clock as int,
                timestamp as int,
                tables::opt_text(content_type),
                tables::opt_bytes(payload),
                has_attachment,
                tables::opt_text(attachment_path),
            ),
    {
        let ghost before = self.events@;
        let row = EventRow {
            id: self.event_seq + 1,
            event_type,
            clip_uuid,
            device_id,
            vector_clock,
            timestamp,
            content_type,
            payload,
            has_attachment,
            attachment_path,
        };
        let ghost v = row@;
        self.events.push(row);
        self.event_seq = self.event_seq + 1;
        proof {
            assert(self@.events =~= tables::event_views(before).push(v));
            let e = self@.events;
            assert forall|i: int, j: int| 0 <= i < j < e.len() implies !model::same_event(
                #[trigger] e[i],
                #[trigger] e[j],
            ) && e[i].id < e[j].id by {
                if j == e.len() - 1 {
                    assert(e[i] == tables::event_views(before)[i]);
                } else {
                    assert(e[i] == tables::event_views(before)[i]);
                    assert(e[j] == tables::event_views(before)[j]);
                }
            }
        }
    }

    fn note_event(
        &mut self,
        event_type: &str,
        clip_uuid: &str,
        vector_clock: i64,
        timestamp: i64,
        has_attachment: bool,
        attachment_path: Option<String>,
    )
        requires
            old(self).wf(),
            !model::logs(old(self)@.events, clip_uuid@, old(self)@.device_id, vector_clock as int),
        ensures
            final(self).wf(),
            final(self)@ == old(self)@.noted(
                event_type@,
                clip_uuid@,
                vector_clock as int,
                timestamp as int,
                has_attachment,
                tables::opt_text(attachment_path),
            ),
    {
        if self.event_seq < i64::MAX {
            let device_id = self.device_id.clone();
            self.log_event(
                event_type.to_owned(),
                clip_uuid.to_owned(),
                device_id,
                vector_clock,
                timestamp,
                None,
                None,
                Some(has_attachment),
                attachment_path,
            );
        }
    }

    fn append_clip(
        &mut self,
        uuid: String,
        content_type: String,
        encrypted_payload: Vec<u8>,
        timestamp: i64,
        pinned: bool,
        is_locked: bool,
        is_deleted: bool,
        payload_hash: Option<String>,
        has_attachment: bool,
        attachment_path: Option<String>,
    )
        requires
            old(self).wf(),
            old(self)@.clip_seq < model::max_row(),
            model::uuid_at(old(self)@.clips, uuid@) is None,
        ensures
            final(self).wf(),
            final(self)@ == old(self)@.appended(
                uuid@,
                content_type@,
                encrypted_payload@,
                timestamp as int,
                pinned,
                is_locked,
                is_deleted,
                tables::opt_text(payload_hash),
                has_attachment,
                tables::opt_text(attachment_path),
            ),
    {
        let ghost before = self.clips@;
        let row = ClipRow {
            id: self.clip_seq + 1,
            uuid: Some(uuid),
            content_type,
            encrypted_payload,
            timestamp,
            pinned,
            is_deleted,
            is_locked,
            payload_hash,
            has_attachment,
            attachment_path,
        };
        let ghost v = row@;
        self.clips.push(row);
        self.clip_seq = self.clip_seq + 1;
        proof {
            assert(self@.clips =~= tables::clip_views(before).push(v));
            let c = self@.clips;
            assert forall|i: int, j: int| 0 <= i < j < c.len() implies (#[trigger] c[i]).id < (#[trigger] c[j]).id && (
            c[i].uuid is Some ==> c[i].uuid != c[j].uuid) by {
                assert(c[i] == tables::clip_views(before)[i]);
                if j < c.len() - 1 {
                    assert(c[j] == tables::clip_views(before)[j]);
                }
            }
        }
    }

    fn count_loose(&self) -> (r: usize)
        ensures
            r == model::loose_clips(self@.clips).len(),
    {
        let ghost p = |c: ClipView| !c.pinned && !c.is_locked && !c.is_deleted;
        let mut n: usize = 0;
        let mut i: usize = 0;
        proof {
            reveal(Seq::filter);
            assert(self@.clips.take(0).filter(p).len() == 0);
        }
        while i < self.clips.len()
            invariant
                n <= i <= self.clips@.len(),
                p == (|c: ClipView| !c.pinned && !c.is_locked && !c.is_deleted),
                n == self@.clips.take(i as int).filter(p).len(),
            decreases self.clips@.len() - i,
        {
            proof {
                seqs::filter_step(self@.clips, p, i as int);
            }
            let c = &self.clips[i];
            if !c.pinned && !c.is_locked && !c.is_deleted {
                n += 1;
            }
            i += 1;
        }
        assert(self@.clips.take(i as int) =~= self@.clips);
        n
    }

    /// Puts a clip of this device into the history, with a fresh uuid and the
    /// readings of the machine's clock given.
    pub fn insert_clip_at(
        &mut self,
        content_type: &str,
        encrypted_payload: &[u8],
        limit: i64,
        has_attachment: bool,
        attachment_path: Option<String>,
        uuid: String,
        timestamp: i64,
        physical: i64,
    ) -> (r: Result<i64, DbError>)
        requires
            old(self).wf(),
            old(self)@.clock_left(),
        ensures
            final(self).wf(),
            (final(self)@, row_result(r)) == old(self)@.insert_clip(
                content_type@,
                encrypted_payload@,
                limit as int,
                has_attachment,
                tables::opt_text(attachment_path),
                payload_hash(encrypted_payload@),
                uuid@,
                timestamp as int,
                physical as int,
            ),
            r is Ok ==> keeps_to_limit(old(self)@.clips, final(self)@.clips, limit as int),
    {
        proof {
            let hash = payload_hash(encrypted_payload@);
            let path = tables::opt_text(attachment_path);
            let (at, clock) = (timestamp as int, physical as int);
            crate::laws::insertion_keeps_to_limit(
                self@,
                content_type@,
                encrypted_payload@,
                limit as int,
                has_attachment,
                path,
                hash,
                uuid@,
                at,
                clock,
            );
        }
        if self.clip_seq == i64::MAX {
            return Err(DbError::Full);
        }
        if self.find_uuid(uuid.as_str()).is_some() {
            return Err(DbError::UuidTaken);
        }
        let hash = hex_encode(sha256(encrypted_payload).as_slice());
        self.append_clip(
            uuid.clone(),
            content_type.to_owned(),
            bytes_of(encrypted_payload),
            timestamp,
            false,
            false,
            false,
            Some(hash),
            has_attachment,
            copy_opt_text(&attachment_path),
        );
        if self.event_seq == i64::MAX {
            return Err(DbError::Full);
        }
        let vector_clock = self.next_hlc_at(physical);
        let device_id = self.device_id.clone();
        proof {
            fresh_clock_is_not_logged(self@.events, uuid@, device_id@, vector_clock as int);
        }
        self.log_event(
            "INSERT".to_owned(),
            uuid,
            device_id,
            vector_clock,
            timestamp,
            Some(content_type.to_owned()),
            Some(bytes_of(encrypted_payload)),
            Some(has_attachment),
            attachment_path,
        );
        let new_id = self.event_seq;
        let actual_limit: i64 = if limit <= 0 {
            model::DEFAULT_LIMIT
        } else {
            limit
        };
        if self.count_loose() as i128 > actual_limit as i128 {
            return Err(DbError::PayloadRequired);
        }
        let dropped = Dropped::DeletedBefore(timestamp as i128 - model::DELETED_AGE as i128);
        proof {
            assert((|c: ClipView| !dropped.holds(c)) =~= (|c: ClipView|
                !(c.is_deleted && c.timestamp < timestamp - model::DELETED_AGE)));
        }
        self.drop_clips(dropped);
        Ok(new_id)
    }
}

} // verus!
