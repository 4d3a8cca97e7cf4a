//! What a device does to its own history.
use super::{Change, Database, Dropped, Selected};
use crate::db;
use crate::model;
use crate::model::{DbError, DbView};
use crate::primitives::{fresh_uuid, now_micros};
use crate::seqs;
use crate::tables;
use crate::tables::{copy_opt_text, ClipView};
use crate::text;
use vstd::prelude::*;

verus! {

broadcast use vstd::seq_lib::group_seq_properties;

/// A looked-up text, or the error.
pub open spec fn text_result(r: Result<Option<String>, DbError>) -> Result<Option<Seq<char>>, DbError> {
    match r {
        Ok(o) => Ok(tables::opt_text(o)),
        Err(e) => Err(e),
    }
}

/// Two readings of the machine's clock.
pub(crate) fn two_readings() -> (r: Option<(i64, i64)>) {
    match now_micros() {
        Some(first) => match now_micros() {
            Some(second) => Some((first, second)),
            None => None,
        },
        None => None,
    }
}

/// Whether a clip is there and has a uuid, so that a change of it is told to
/// other devices.
pub open spec fn shared(db: DbView, id: int) -> bool {
    db.uuid_by_id(id) matches Ok(Some(_))
}

impl Database {
    /// Puts a clip of this device into the history. The clip gets a fresh uuid.
    /// Nothing changes where the machine gives no random bytes for it, or its
    /// clock is set to before 1970.
    pub fn insert_clip(
        &mut self,
        content_type: &str,
        encrypted_payload: &[u8],
        limit: i64,
        has_attachment: bool,
        attachment_path: Option<String>,
    ) -> (r: Result<i64, DbError>)
        requires
            old(self).wf(),
            old(self)@.clock_left(),
        ensures
            final(self).wf(),
            match r {
                Err(DbError::ClockBeforeEpoch) => final(self)@ == old(self)@,
                Err(DbError::NoRandomness) => final(self)@ == old(self)@,
                _ => exists|uuid: Seq<char>, timestamp: int, physical: int|
                    crate::primitives::uuid_shaped(uuid) && (final(self)@, db::row_result(r))
                        == #[trigger] old(self)@.insert_clip(
                        content_type@,
                        encrypted_payload@,
                        limit as int,
                        has_attachment,
                        tables::opt_text(attachment_path),
                        db::payload_hash(encrypted_payload@),
                        uuid,
                        timestamp,
                        physical,
                    ),
            },
            r is Ok ==> db::keeps_to_limit(old(self)@.clips, final(self)@.clips, limit as int),
    {
        let uuid = match fresh_uuid() {
            Some(uuid) => uuid,
            None => return Err(DbError::NoRandomness),
        };
        match two_readings() {
            Some((timestamp, physical)) => self.insert_clip_at(
                content_type,
                encrypted_payload,
                limit,
                has_attachment,
                attachment_path,
                uuid,
                timestamp,
                physical,
            ),
            None => Err(DbError::ClockBeforeEpoch),
        }
    }

    /// The uuid of the clip with a number.
    pub fn get_uuid_by_id(&self, id: i64) -> (r: Result<Option<String>, DbError>)
        requires
            self.wf(),
        ensures
            text_result(r) == self@.uuid_by_id(id as int),
    {
        match self.find_id(id) {
            Some(i) => {
                assert(self@.clips[i as int] == self.clips@[i as int]@);
                match &self.clips[i].uuid {
                    Some(u) => Ok(Some(u.clone())),
                    None => Err(DbError::MissingUuid),
                }
            },
            None => Ok(None),
        }
    }

    /// Pins or unpins a clip, at two readings of the machine's clock.
    pub fn toggle_pin_at(&mut self, id: i64, pinned: bool, timestamp: i64, physical: i64) -> (r: Result<(), DbError>)
        requires
            old(self).wf(),
            old(self)@.clock_left(),
        ensures
            final(self).wf(),
            (final(self)@, r) == old(self)@.toggle_pin(id as int, pinned, timestamp as int, physical as int),
    {
        let ghost before = self@;
        match self.find_id(id) {
            None => Err(DbError::NoSuchClip),
            Some(i) => {
                assert(self@.clips[i as int] == self.clips@[i as int]@);
                let has_attachment = self.clips[i].has_attachment;
                let attachment_path = copy_opt_text(&self.clips[i].attachment_path);
                match copy_opt_text(&self.clips[i].uuid) {
                    None => Err(DbError::MissingUuid),
                    Some(uuid) => {
                        let selected = Selected::Id(id);
                        let change = Change::Pin(pinned);
                        proof {
                            assert(model::changed(before.clips, |c: ClipView| selected.holds(c), |c: ClipView| change.made(c))
                                =~= model::changed(
                                before.clips,
                                |c: ClipView| c.id == id as int,
                                |c: ClipView| ClipView { pinned, ..c },
                            ));
                        }
                        self.change_clips(selected, change);
                        if self.event_seq == i64::MAX {
                            return Err(DbError::Full);
                        }
                        let vector_clock = self.next_hlc_at(physical);
                        proof {
                            db::fresh_clock_is_not_logged(
                                self@.events,
                                uuid@,
                                self@.device_id,
                                vector_clock as int,
                            );
                        }
                        let event_type = if pinned {
                            "PIN"
                        } else {
                            "UNPIN"
                        };
                        self.note_event(
                            event_type,
                            uuid.as_str(),
                            vector_clock,
                            timestamp,
                            has_attachment,
                            attachment_path,
                        );
                        Ok(())
                    },
                }
            },
        }
    }

    /// Pins or unpins a clip, and tells other devices.
    pub fn toggle_pin(&mut self, id: i64, pinned: bool) -> (r: Result<(), DbError>)
        requires
            old(self).wf(),
            old(self)@.clock_left(),
        ensures
            final(self).wf(),
            match r {
                Err(DbError::ClockBeforeEpoch) => final(self)@ == old(self)@ && shared(old(self)@, id as int),
                _ => exists|timestamp: int, physical: int|
                    (final(self)@, r) == #[trigger] old(self)@.toggle_pin(id as int, pinned, timestamp, physical),
            },
    {
        match self.get_uuid_by_id(id) {
            Ok(Some(_)) => match two_readings() {
                Some((physical, timestamp)) => self.toggle_pin_at(id, pinned, timestamp, physical),
                None => Err(DbError::ClockBeforeEpoch),
            },
            _ => self.toggle_pin_at(id, pinned, 0, 0),
        }
    }

    /// Locks or unlocks a clip, at two readings of the machine's clock.
    pub fn toggle_lock_at(
        &mut self,
        id: i64,
        is_locked: bool,
        timestamp: i64,
        physical: i64,
    ) -> (r: Result<(), DbError>)
        requires
            old(self).wf(),
            old(self)@.clock_left(),
        ensures
            final(self).wf(),
            (final(self)@, r) == old(self)@.toggle_lock(id as int, is_locked, timestamp as int, physical as int),
    {
        let ghost before = self@;
        let found = self.get_uuid_by_id(id);
        let selected = Selected::Id(id);
        let change = Change::Lock(is_locked);
        proof {
            assert(model::changed(before.clips, |c: ClipView| selected.holds(c), |c: ClipView| change.made(c))
                =~= model::changed(
                before.clips,
                |c: ClipView| c.id == id as int,
                |c: ClipView| ClipView { is_locked, ..c },
            ));
        }
        self.change_clips(selected, change);
        if !is_locked {
            return Ok(());
        }
        match found {
            Err(e) => Err(e),
            Ok(None) => Ok(()),
            Ok(Some(uuid)) => {
                let vector_clock = self.next_hlc_at(physical);
                proof {
                    db::fresh_clock_is_not_logged(self@.events, uuid@, self@.device_id, vector_clock as int);
                }
                self.note_event("LOCK", uuid.as_str(), vector_clock, timestamp, false, None);
                Ok(())
            },
        }
    }

    /// Locks or unlocks a clip. Other devices are told of a lock; an unlock
    /// stays here.
    pub fn toggle_lock(&mut self, id: i64, is_locked: bool) -> (r: Result<(), DbError>)
        requires
            old(self).wf(),
            old(self)@.clock_left(),
        ensures
            final(self).wf(),
            match r {
                Err(DbError::ClockBeforeEpoch) => final(self)@ == old(self)@ && is_locked && shared(
                    old(self)@,
                    id as int,
                ),
                _ => exists|timestamp: int, physical: int|
                    (final(self)@, r) == #[trigger] old(self)@.toggle_lock(id as int, is_locked, timestamp, physical),
            },
    {
        match self.get_uuid_by_id(id) {
            Ok(Some(_)) if is_locked => match two_readings() {
                Some((physical, timestamp)) => self.toggle_lock_at(id, is_locked, timestamp, physical),
                None => Err(DbError::ClockBeforeEpoch),
            },
            _ => self.toggle_lock_at(id, is_locked, 0, 0),
        }
    }

    /// Locks or unlocks the clips with a digest, on this device only.
    pub fn toggle_lock_by_hash(&mut self, hash: &str, is_locked: bool)
        requires
            old(self).wf(),
        ensures
            final(self).wf(),
            final(self)@ == old(self)@.with_clips(
                model::changed(
                    old(self)@.clips,
                    |c: ClipView| c.payload_hash == Some(hash@),
                    |c: ClipView| ClipView { is_locked, ..c },
                ),
            ),
            final(self)@ == old(self)@.locked_by_hash(hash@, is_locked),
    {
        let selected = Selected::Hash(hash);
        let change = Change::Lock(is_locked);
        proof {
            assert(model::changed(self@.clips, |c: ClipView| selected.holds(c), |c: ClipView| change.made(c))
                =~= model::changed(
                self@.clips,
                |c: ClipView| c.payload_hash == Some(hash@),
                |c: ClipView| ClipView { is_locked, ..c },
            ));
        }
        self.change_clips(selected, change);
    }

    /// Whether the first clip with a digest is locked; no such clip counts as
    /// unlocked.
    pub fn is_locked_by_hash(&self, hash: &str) -> (r: bool)
        ensures
            r == (exists|i: int|
                0 <= i < self@.clips.len() && (#[trigger] self@.clips[i]).payload_hash == Some(hash@)
                    && self@.clips[i].is_locked && forall|j: int|
                    0 <= j < i ==> (#[trigger] self@.clips[j]).payload_hash != Some(hash@)),
    {
        let mut i: usize = 0;
        while i < self.clips.len()
            invariant
                i <= self.clips@.len(),
                forall|j: int| 0 <= j < i ==> (#[trigger] self@.clips[j]).payload_hash != Some(hash@),
            decreases self.clips@.len() - i,
        {
            assert(self@.clips[i as int] == self.clips@[i as int]@);
            if Selected::Hash(hash).reaches(&self.clips[i]) {
                return self.clips[i].is_locked;
            }
            i += 1;
        }
        false
    }

    /// Pins or unpins the clips with a digest, on this device only.
    pub fn toggle_pin_by_hash(&mut self, hash: &str, pinned: bool)
        requires
            old(self).wf(),
        ensures
            final(self).wf(),
            final(self)@ == old(self)@.with_clips(
                model::changed(
                    old(self)@.clips,
                    |c: ClipView| c.payload_hash == Some(hash@),
                    |c: ClipView| ClipView { pinned, ..c },
                ),
            ),
            final(self)@ == old(self)@.pinned_by_hash(hash@, pinned),
    {
        let selected = Selected::Hash(hash);
        let change = Change::Pin(pinned);
        proof {
            assert(model::changed(self@.clips, |c: ClipView| selected.holds(c), |c: ClipView| change.made(c))
                =~= model::changed(
                self@.clips,
                |c: ClipView| c.payload_hash == Some(hash@),
                |c: ClipView| ClipView { pinned, ..c },
            ));
        }
        self.change_clips(selected, change);
    }

    /// Moves the clips with a digest to the recycle bin, on this device only.
    pub fn delete_clip_by_hash(&mut self, hash: &str)
        requires
            old(self).wf(),
        ensures
            final(self).wf(),
            final(self)@ == old(self)@.with_clips(
                model::changed(
                    old(self)@.clips,
                    |c: ClipView| c.payload_hash == Some(hash@),
                    |c: ClipView| ClipView { is_deleted: true, ..c },
                ),
            ),
            final(self)@ == old(self)@.deleted_by_hash(hash@),
    {
        let selected = Selected::Hash(hash);
        let change = Change::Delete;
        proof {
            assert(model::changed(self@.clips, |c: ClipView| selected.holds(c), |c: ClipView| change.made(c))
                =~= model::changed(
                self@.clips,
                |c: ClipView| c.payload_hash == Some(hash@),
                |c: ClipView| ClipView { is_deleted: true, ..c },
            ));
        }
        self.change_clips(selected, change);
    }

    /// The digest of the clip with a number.
    pub fn get_hash_by_id(&self, id: i64) -> (r: Result<Option<String>, DbError>)
        requires
            self.wf(),
        ensures
            text_result(r) == match model::clip_at(self@.clips, id as int) {
                Some(i) => Ok(self@.clips[i].payload_hash),
                None => Err(DbError::NoSuchClip),
            },
    {
        match self.find_id(id) {
            Some(i) => {
                assert(self@.clips[i as int] == self.clips@[i as int]@);
                Ok(copy_opt_text(&self.clips[i].payload_hash))
            },
            None => Err(DbError::NoSuchClip),
        }
    }

    /// Moves a clip to the recycle bin, at two readings of the machine's clock.
    pub fn delete_clip_at(&mut self, id: i64, timestamp: i64, physical: i64) -> (r: Result<(), DbError>)
        requires
            old(self).wf(),
            old(self)@.clock_left(),
        ensures
            final(self).wf(),
            (final(self)@, r) == old(self)@.delete_clip(id as int, timestamp as int, physical as int),
    {
        let ghost before = self@;
        let found = self.get_uuid_by_id(id);
        let selected = Selected::Id(id);
        let change = Change::DeleteAndUnpin;
        proof {
            assert(model::changed(before.clips, |c: ClipView| selected.holds(c), |c: ClipView| change.made(c))
                =~= model::changed(
                before.clips,
                |c: ClipView| c.id == id as int,
                |c: ClipView| ClipView { is_deleted: true, pinned: false, ..c },
            ));
        }
        self.change_clips(selected, change);
        match found {
            Err(e) => Err(e),
            Ok(None) => Ok(()),
            Ok(Some(uuid)) => {
                let vector_clock = self.next_hlc_at(physical);
                proof {
                    db::fresh_clock_is_not_logged(self@.events, uuid@, self@.device_id, vector_clock as int);
                }
                self.note_event("DELETE", uuid.as_str(), vector_clock, timestamp, false, None);
                Ok(())
            },
        }
    }

    /// Moves a clip to the recycle bin, and tells other devices.
    pub fn delete_clip(&mut self, id: i64) -> (r: Result<(), DbError>)
        requires
            old(self).wf(),
            old(self)@.clock_left(),
        ensures
            final(self).wf(),
            match r {
                Err(DbError::ClockBeforeEpoch) => final(self)@ == old(self)@ && shared(old(self)@, id as int),
                _ => exists|timestamp: int, physical: int|
                    (final(self)@, r) == #[trigger] old(self)@.delete_clip(id as int, timestamp, physical),
            },
    {
        match self.get_uuid_by_id(id) {
            Ok(Some(_)) => match two_readings() {
                Some((physical, timestamp)) => self.delete_clip_at(id, timestamp, physical),
                None => Err(DbError::ClockBeforeEpoch),
            },
            _ => self.delete_clip_at(id, 0, 0),
        }
    }

    /// Takes a clip out of the store, at two readings of the machine's clock.
    pub fn permanently_delete_clip_at(&mut self, id: i64, timestamp: i64, physical: i64) -> (r: Result<(), DbError>)
        requires
            old(self).wf(),
            old(self)@.clock_left(),
        ensures
            final(self).wf(),
            (final(self)@, r) == old(self)@.permanently_delete_clip(id as int, timestamp as int, physical as int),
    {
        match self.get_uuid_by_id(id) {
            Err(e) => return Err(e),
            Ok(None) => {},
            Ok(Some(uuid)) => {
                let vector_clock = self.next_hlc_at(physical);
                proof {
                    db::fresh_clock_is_not_logged(self@.events, uuid@, self@.device_id, vector_clock as int);
                }
                self.note_event("DELETE", uuid.as_str(), vector_clock, timestamp, false, None);
            },
        }
        let dropped = Dropped::Id(id);
        proof {
            assert((|c: ClipView| !dropped.holds(c)) =~= (|c: ClipView| c.id != id as int));
        }
        self.drop_clips(dropped);
        Ok(())
    }

    /// Takes a clip out of the store, and tells other devices that it is
    /// deleted.
    pub fn permanently_delete_clip(&mut self, id: i64) -> (r: Result<(), DbError>)
        requires
            old(self).wf(),
            old(self)@.clock_left(),
        ensures
            final(self).wf(),
            match r {
                Err(DbError::ClockBeforeEpoch) => final(self)@ == old(self)@ && shared(old(self)@, id as int),
                _ => exists|timestamp: int, physical: int|
                    (final(self)@, r) == #[trigger] old(self)@.permanently_delete_clip(id as int, timestamp, physical),
            },
    {
        match self.get_uuid_by_id(id) {
            Ok(Some(_)) => match two_readings() {
                Some((physical, timestamp)) => self.permanently_delete_clip_at(id, timestamp, physical),
                None => Err(DbError::ClockBeforeEpoch),
            },
            _ => self.permanently_delete_clip_at(id, 0, 0),
        }
    }

    /// Unlocks every clip, on this device only.
    pub fn clear_all_locks(&mut self)
        requires
            old(self).wf(),
        ensures
            final(self).wf(),
            final(self)@ == old(self)@.with_clips(
                old(self)@.clips.map_values(|c: ClipView| ClipView { is_locked: false, ..c }),
            ),
            final(self)@ == old(self)@.unlocked(),
    {
        let selected = Selected::All;
        let change = Change::Lock(false);
        proof {
            assert(model::changed(self@.clips, |c: ClipView| selected.holds(c), |c: ClipView| change.made(c))
                =~= self@.clips.map_values(|c: ClipView| ClipView { is_locked: false, ..c }));
        }
        self.change_clips(selected, change);
    }

    /// Takes a clip out of the recycle bin, on this device only.
    pub fn restore_clip(&mut self, id: i64)
        requires
            old(self).wf(),
        ensures
            final(self).wf(),
            final(self)@ == old(self)@.restore_clip(id as int),
    {
        let selected = Selected::Id(id);
        let change = Change::Restore;
        proof {
            assert(model::changed(self@.clips, |c: ClipView| selected.holds(c), |c: ClipView| change.made(c))
                =~= model::changed(
                self@.clips,
                |c: ClipView| c.id == id as int,
                |c: ClipView| ClipView { is_deleted: false, ..c },
            ));
        }
        self.change_clips(selected, change);
    }

    /// Takes the clips in the recycle bin out of the store.
    pub fn empty_recycle_bin(&mut self)
        requires
            old(self).wf(),
        ensures
            final(self).wf(),
            final(self)@ == old(self)@.with_clips(model::live_clips(old(self)@.clips)),
            final(self)@ == old(self)@.bin_emptied(),
    {
        let dropped = Dropped::Deleted;
        proof {
            assert((|c: ClipView| !dropped.holds(c)) =~= (|c: ClipView| !c.is_deleted));
        }
        self.drop_clips(dropped);
    }

    fn clearable_uuids(&self, delete_locked: bool) -> (r: Option<Vec<String>>)
        ensures
            ({
                let reached = self@.clearable(delete_locked);
                match r {
                    Some(v) => text::texts(v@) == reached.map_values(|c: ClipView| c.uuid->0) && forall|i: int|
                        0 <= i < reached.len() ==> (#[trigger] reached[i]).uuid is Some,
                    None => exists|i: int| 0 <= i < reached.len() && (#[trigger] reached[i]).uuid is None,
                }
            }),
    {
        let ghost p = |c: ClipView| delete_locked || !c.is_locked;
        let ghost u = |c: ClipView| c.uuid->0;
        let ghost clips = self@.clips;
        let mut out: Vec<String> = Vec::new();
        let mut i: usize = 0;
        proof {
            reveal(Seq::filter);
            assert(text::texts(out@) =~= clips.take(0).filter(p).map_values(u));
        }
        while i < self.clips.len()
            invariant
                i <= self.clips@.len(),
                clips == self@.clips,
                p == (|c: ClipView| delete_locked || !c.is_locked),
                u == (|c: ClipView| c.uuid->0),
                text::texts(out@) == clips.take(i as int).filter(p).map_values(u),
                forall|k: int|
                    0 <= k < clips.take(i as int).filter(p).len() ==> (#[trigger] clips.take(i as int).filter(
                        p,
                    )[k]).uuid is Some,
            decreases self.clips@.len() - i,
        {
            let ghost so_far = out@;
            proof {
                assert(clips[i as int] == self.clips@[i as int]@);
                seqs::filter_step(clips, p, i as int);
            }
            if delete_locked || !self.clips[i].is_locked {
                match &self.clips[i].uuid {
                    Some(uuid) => {
                        out.push(uuid.clone());
                        proof {
                            assert(text::texts(out@) =~= text::texts(so_far).push(uuid@));
                            assert(clips.take(i as int + 1).filter(p).map_values(u) =~= clips.take(i as int).filter(
                                p,
                            ).map_values(u).push(uuid@));
                        }
                    },
                    None => {
                        proof {
                            let k = seqs::filter_keeps(clips, p, i as int);
                            assert(self@.clearable(delete_locked)[k].uuid is None);
                        }
                        return None;
                    },
                }
            }
            i += 1;
        }
        assert(clips.take(i as int) =~= clips);
        Some(out)
    }

    /// Moves the history to the recycle bin, at two readings of the machine's
    /// clock.
    pub fn clear_all_at(&mut self, delete_locked: bool, timestamp: i64, physical: i64) -> (r: Result<(), DbError>)
        requires
            old(self).wf(),
            old(self)@.clock_left(),
        ensures
            final(self).wf(),
            (final(self)@, r) == old(self)@.clear_all(delete_locked, timestamp as int, physical as int),
    {
        let ghost before = self@;
        let uuids = match self.clearable_uuids(delete_locked) {
            Some(v) => v,
            None => {
                return Err(DbError::MissingUuid);
            },
        };
        let selected = if delete_locked {
            Selected::All
        } else {
            Selected::Unlocked
        };
        let change = Change::Delete;
        proof {
            assert(model::changed(before.clips, |c: ClipView| selected.holds(c), |c: ClipView| change.made(c))
                =~= model::changed(
                before.clips,
                |c: ClipView| delete_locked || !c.is_locked,
                |c: ClipView| ClipView { is_deleted: true, ..c },
            ));
        }
        self.change_clips(selected, change);
        let vector_clock = self.next_hlc_at(physical);
        let ghost changed = self@;
        let ghost all = text::texts(uuids@);
        proof {
            clearable_uuids_differ(before, delete_locked);
        }
        let mut i: usize = 0;
        assert(all.take(0) =~= Seq::<Seq<char>>::empty());
        while i < uuids.len()
            invariant
                self.wf(),
                i <= uuids@.len(),
                all == text::texts(uuids@),
                self@ == changed.deletions_noted(all.take(i as int), vector_clock as int, timestamp as int),
                self@.device_id == changed.device_id,
                vector_clock > model::max_clock(changed.events),
                forall|a: int, b: int| 0 <= a < b < all.len() ==> #[trigger] all[a] != #[trigger] all[b],
            decreases uuids@.len() - i,
        {
            proof {
                assert(all.take(i as int + 1).drop_last() =~= all.take(i as int));
                deletions_leave_others(changed, all.take(i as int), vector_clock as int, timestamp as int, all[i as int]);
            }
            self.note_event("DELETE", uuids[i].as_str(), vector_clock, timestamp, false, None);
            i += 1;
        }
        assert(all.take(i as int) =~= all);
        Ok(())
    }

    /// Moves the history to the recycle bin, locked clips only where asked, and
    /// tells other devices.
    pub fn clear_all(&mut self, delete_locked: bool) -> (r: Result<(), DbError>)
        requires
            old(self).wf(),
            old(self)@.clock_left(),
        ensures
            final(self).wf(),
            match r {
                Err(DbError::ClockBeforeEpoch) => final(self)@ == old(self)@,
                _ => exists|timestamp: int, physical: int|
                    (final(self)@, r) == #[trigger] old(self)@.clear_all(delete_locked, timestamp, physical),
            },
    {
        match two_readings() {
            Some((physical, timestamp)) => self.clear_all_at(delete_locked, timestamp, physical),
            None => Err(DbError::ClockBeforeEpoch),
        }
    }
}

proof fn clearable_uuids_differ(db: DbView, delete_locked: bool)
    requires
        db.wf(),
        forall|i: int|
            0 <= i < db.clearable(delete_locked).len() ==> (#[trigger] db.clearable(delete_locked)[i]).uuid is Some,
    ensures
        ({
            let all = db.clearable(delete_locked).map_values(|c: ClipView| c.uuid->0);
            forall|a: int, b: int| 0 <= a < b < all.len() ==> #[trigger] all[a] != #[trigger] all[b]
        }),
{
    let reached = db.clearable(delete_locked);
    let all = reached.map_values(|c: ClipView| c.uuid->0);
    assert forall|a: int, b: int| 0 <= a < b < all.len() implies #[trigger] all[a] != #[trigger] all[b] by {
        let (x, y) = seqs::filter_keeps_order(db.clips, |c: ClipView| delete_locked || !c.is_locked, a, b);
        assert(reached[a].uuid is Some && reached[b].uuid is Some);
        assert(db.clips[x].uuid != db.clips[y].uuid);
    }
}

proof fn deletions_leave_others(db: DbView, uuids: Seq<Seq<char>>, clock: int, timestamp: int, other: Seq<char>)
    requires
        clock > model::max_clock(db.events),
        !uuids.contains(other),
    ensures
        ({
            let after = db.deletions_noted(uuids, clock, timestamp);
            &&& !model::logs(after.events, other, db.device_id, clock)
            &&& after.device_id == db.device_id
        }),
    decreases uuids.len(),
{
    if uuids.len() == 0 {
        db::fresh_clock_is_not_logged(db.events, other, db.device_id, clock);
    } else {
        let front = uuids.drop_last();
        assert forall|k: int| 0 <= k < front.len() implies front[k] != other by {
            assert(uuids.contains(uuids[k]));
        }
        deletions_leave_others(db, front, clock, timestamp, other);
        assert(uuids.contains(uuids.last()));
        let before = db.deletions_noted(front, clock, timestamp);
        let after = db.deletions_noted(uuids, clock, timestamp);
        assert forall|i: int| 0 <= i < after.events.len() implies !((#[trigger] after.events[i]).clip_uuid == other
            && after.events[i].device_id == db.device_id && after.events[i].vector_clock == clock) by {
            if i < before.events.len() {
                assert(after.events[i] == before.events[i]);
            }
        }
    }
}

} // verus!
