//! What the user interface reads from the history.
use super::Database;
use crate::model;
use crate::model::DbView;
use crate::seqs;
use crate::tables;
use crate::tables::{copy_bytes, copy_opt_text, ClipRow, ClipView, EventRow, EventView, KnownPeer, SyncStateRow};
use crate::text::same;
use vstd::prelude::*;

verus! {

broadcast use vstd::seq_lib::group_seq_properties;

/// A clip as it is listed: number, type, encrypted payload, stamp, pinned,
/// locked, whether it has an attachment, and the attachment.
pub type ListedClip = (i64, String, Vec<u8>, i64, bool, bool, bool, Option<String>);

/// What a listed clip stands for.
pub type ListedClipView = (int, Seq<char>, Seq<u8>, int, bool, bool, bool, Option<Seq<char>>);

/// What a listed clip stands for.
pub open spec fn listed_view(t: ListedClip) -> ListedClipView {
    (t.0 as int, t.1@, t.2@, t.3 as int, t.4, t.5, t.6, tables::opt_text(t.7))
}

/// What listed clips stand for.
pub open spec fn listed_views(v: Seq<ListedClip>) -> Seq<ListedClipView> {
    v.map_values(|t: ListedClip| listed_view(t))
}

/// A clip as it is listed.
pub open spec fn listed(c: ClipView) -> ListedClipView {
    (
        c.id,
        c.content_type,
        c.encrypted_payload,
        c.timestamp,
        c.pinned,
        c.is_locked,
        c.has_attachment,
        c.attachment_path,
    )
}

/// Clips as they are listed.
pub open spec fn all_listed(clips: Seq<ClipView>) -> Seq<ListedClipView> {
    clips.map_values(|c: ClipView| listed(c))
}

fn list_clip(c: &ClipRow) -> (r: ListedClip)
    ensures
        listed_view(r) == listed(c@),
{
    (
        c.id,
        c.content_type.clone(),
        copy_bytes(&c.encrypted_payload),
        c.timestamp,
        c.pinned,
        c.is_locked,
        c.has_attachment,
        copy_opt_text(&c.attachment_path),
    )
}

/// Filtering a suffix one longer.
proof fn filter_suffix_step(s: Seq<ClipView>, p: spec_fn(ClipView) -> bool, i: int)
    requires
        0 <= i < s.len(),
    ensures
        s.skip(i).filter(p).reverse() == (if p(s[i]) {
            s.skip(i + 1).filter(p).reverse().push(s[i])
        } else {
            s.skip(i + 1).filter(p).reverse()
        }),
{
    assert(s.skip(i) =~= seq![s[i]] + s.skip(i + 1));
    s.skip(i + 1).lemma_filter_prepend(s[i], p);
    if p(s[i]) {
        assert(s.skip(i).filter(p).reverse() =~= s.skip(i + 1).filter(p).reverse().push(s[i]));
    } else {
        assert(s.skip(i).filter(p) =~= s.skip(i + 1).filter(p));
    }
}

/// The last clips of a suffix are the last of all.
proof fn filter_suffix_is_front(s: Seq<ClipView>, p: spec_fn(ClipView) -> bool, i: int)
    requires
        0 <= i <= s.len(),
    ensures
        s.skip(i).filter(p).len() <= s.filter(p).len(),
        s.filter(p).reverse().take(s.skip(i).filter(p).len() as int) == s.skip(i).filter(p).reverse(),
{
    assert(s =~= s.take(i) + s.skip(i));
    Seq::filter_distributes_over_add(s.take(i), s.skip(i), p);
    let a = s.take(i).filter(p);
    let b = s.skip(i).filter(p);
    assert(s.filter(p) == a + b);
    assert((a + b).reverse().take(b.len() as int) =~= b.reverse());
}

impl Database {
    fn list_clips(&self, deleted: bool, limit: Option<usize>) -> (r: Vec<ListedClip>)
        ensures
            ({
                let found = self@.clips.filter(|c: ClipView| c.is_deleted == deleted).reverse();
                listed_views(r@) == all_listed(
                    match limit {
                        Some(n) => model::up_to(found, n as int),
                        None => found,
                    },
                )
            }),
    {
        let ghost p = |c: ClipView| c.is_deleted == deleted;
        let ghost clips = self@.clips;
        let mut out: Vec<ListedClip> = Vec::new();
        let mut i: usize = self.clips.len();
        proof {
            reveal(Seq::filter);
            assert(clips.skip(i as int) =~= Seq::<ClipView>::empty());
            assert(listed_views(out@) =~= all_listed(clips.skip(i as int).filter(p).reverse()));
        }
        while i > 0
            invariant
                i <= self.clips@.len(),
                clips == self@.clips,
                p == (|c: ClipView| c.is_deleted == deleted),
                listed_views(out@) == all_listed(clips.skip(i as int).filter(p).reverse()),
                limit matches Some(n) ==> out@.len() <= n,
            decreases i,
        {
            let ghost so_far = out@;
            let full = match limit {
                Some(n) => out.len() >= n,
                None => false,
            };
            if full {
                proof {
                    filter_suffix_is_front(clips, p, i as int);
                    assert(listed_views(out@).len() == out@.len());
                    let n = limit->0;
                    let found = clips.filter(p).reverse();
                    assert(clips.skip(i as int).filter(p).reverse().len() == n);
                    if n == 0 {
                        assert(model::up_to(found, 0) =~= clips.skip(i as int).filter(p).reverse());
                    } else {
                        assert(found.take(n as int) == clips.skip(i as int).filter(p).reverse());
                        if found.len() <= n {
                            assert(found.take(n as int) =~= found);
                        }
                        assert(model::up_to(found, n as int) == found.take(n as int));
                    }
                }
                return out;
            }
            i -= 1;
            proof {
                assert(clips[i as int] == self.clips@[i as int]@);
                filter_suffix_step(clips, p, i as int);
            }
            if self.clips[i].is_deleted == deleted {
                let t = list_clip(&self.clips[i]);
                let ghost v = listed_view(t);
                out.push(t);
                proof {
                    assert(listed_views(out@) =~= listed_views(so_far).push(v));
                    assert(all_listed(clips.skip(i as int).filter(p).reverse()) =~= all_listed(
                        clips.skip(i as int + 1).filter(p).reverse(),
                    ).push(v));
                }
            }
        }
        proof {
            assert(clips.skip(0) =~= clips);
            let found = clips.filter(p).reverse();
            assert(listed_views(out@).len() == out@.len());
            assert(limit matches Some(n) ==> model::up_to(found, n as int) =~= found);
        }
        out
    }

    /// The clips for display, newest first; at most a hundred.
    pub fn get_all_clips(&self) -> (r: Vec<ListedClip>)
        ensures
            listed_views(r@) == all_listed(
                model::up_to(model::live_clips(self@.clips).reverse(), model::SHOWN_CLIPS as int),
            ),
    {
        proof {
            assert((|c: ClipView| c.is_deleted == false) =~= (|c: ClipView| !c.is_deleted));
        }
        self.list_clips(false, Some(model::SHOWN_CLIPS))
    }

    /// The clips in the recycle bin, newest first.
    pub fn get_deleted_clips(&self) -> (r: Vec<ListedClip>)
        ensures
            listed_views(r@) == all_listed(model::deleted_clips(self@.clips).reverse()),
    {
        proof {
            assert((|c: ClipView| c.is_deleted == true) =~= (|c: ClipView| c.is_deleted));
        }
        self.list_clips(true, None)
    }

    /// The encrypted payload of the newest clip that is not deleted.
    pub fn get_latest_hash(&self) -> (r: Option<Vec<u8>>)
        ensures
            tables::opt_bytes(r) == (if model::live_clips(self@.clips).len() == 0 {
                None
            } else {
                Some(model::live_clips(self@.clips).last().encrypted_payload)
            }),
    {
        let ghost p = |c: ClipView| !c.is_deleted;
        let ghost clips = self@.clips;
        let mut i: usize = self.clips.len();
        assert(clips.take(i as int) =~= clips);
        while i > 0
            invariant
                i <= self.clips@.len(),
                clips == self@.clips,
                p == (|c: ClipView| !c.is_deleted),
                clips.filter(p) == clips.take(i as int).filter(p),
            decreases i,
        {
            i -= 1;
            proof {
                assert(clips[i as int] == self.clips@[i as int]@);
                seqs::filter_step(clips, p, i as int);
            }
            if !self.clips[i].is_deleted {
                return Some(copy_bytes(&self.clips[i].encrypted_payload));
            }
        }
        proof {
            reveal(Seq::filter);
            assert(clips.take(0).filter(p).len() == 0);
        }
        None
    }

    /// The type and the encrypted payload of the clip with a number.
    pub fn get_clip_by_id(&self, id: i64) -> (r: Option<(String, Vec<u8>)>)
        requires
            self.wf(),
        ensures
            match model::clip_at(self@.clips, id as int) {
                Some(i) => r matches Some(t) && t.0@ == self@.clips[i].content_type && t.1@
                    == self@.clips[i].encrypted_payload,
                None => r is None,
            },
    {
        match self.find_id(id) {
            Some(i) => {
                assert(self@.clips[i as int] == self.clips@[i as int]@);
                Some((self.clips[i].content_type.clone(), copy_bytes(&self.clips[i].encrypted_payload)))
            },
            None => None,
        }
    }

    /// The rows of the clip table, in the order of their numbers.
    pub fn clip_rows(&self) -> (r: &Vec<ClipRow>)
        ensures
            tables::clip_views(r@) == self@.clips,
    {
        &self.clips
    }

    /// The last number given to a clip.
    pub fn clip_sequence(&self) -> (r: i64)
        ensures
            r == self@.clip_seq,
    {
        self.clip_seq
    }

    /// The entries of the event log, in the order of their numbers.
    pub fn event_rows(&self) -> (r: &Vec<EventRow>)
        ensures
            tables::event_views(r@) == self@.events,
    {
        &self.events
    }

    /// The last number given to an event.
    pub fn event_sequence(&self) -> (r: i64)
        ensures
            r == self@.event_seq,
    {
        self.event_seq
    }

    /// The rows of the acknowledgement table.
    pub fn state_rows(&self) -> (r: &Vec<SyncStateRow>)
        ensures
            tables::state_views(r@) == self@.states,
    {
        &self.states
    }

    /// The rows of the table of known devices.
    pub fn peer_rows(&self) -> (r: &Vec<KnownPeer>)
        ensures
            tables::peer_views(r@) == self@.peers,
    {
        &self.peers
    }
}

} // verus!
