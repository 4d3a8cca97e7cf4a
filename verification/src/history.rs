//! The history as the user interface shows it.
use crate::crypto;
use crate::crypto::{CryptoError, CryptoState};
use crate::db::reading::{ListedClip, ListedClipView};
use crate::db::reading;
use crate::db::Database;
use crate::model;
use crate::seqs;
use crate::sync;
use crate::sync::file_stem;
use crate::tables;
use crate::tables::{copy_opt_text, ClipView};
use crate::text::{chars_of, from_utf8};
use crate::wire;
use vstd::prelude::*;
use vstd::utf8::*;

verus! {

broadcast use vstd::seq_lib::group_seq_properties;

/// A clip of the history, opened.
pub struct HistoryEntry {
    pub id: i64,
    pub content_type: String,
    pub content: String,
    pub timestamp: i64,
    pub pinned: bool,
    pub is_locked: bool,
    pub has_attachment: bool,
    /// The path under which the attachment was noted.
    pub attachment: Option<String>,
}

/// What a clip of the history stands for.
#[verifier::ext_equal]
pub struct EntryView {
    pub id: int,
    pub content_type: Seq<char>,
    pub content: Seq<char>,
    pub timestamp: int,
    pub pinned: bool,
    pub is_locked: bool,
    pub has_attachment: bool,
    pub attachment: Option<Seq<char>>,
}

impl View for HistoryEntry {
    type V = EntryView;

    open spec fn view(&self) -> EntryView {
        EntryView {
            id: self.id as int,
            content_type: self.content_type@,
            content: self.content@,
            timestamp: self.timestamp as int,
            pinned: self.pinned,
            is_locked: self.is_locked,
            has_attachment: self.has_attachment,
            attachment: tables::opt_text(self.attachment),
        }
    }
}

/// The text that a clip shows, given what its payload holds: the payload if it
/// is text. A payload that cannot be opened shows as empty where there is an
/// attachment; otherwise, and where it is no text, the clip is not shown.
pub open spec fn content_of(body: Result<Seq<u8>, CryptoError>, has_attachment: bool) -> Option<Seq<char>> {
    match body {
        Ok(data) => wire::as_text(data),
        Err(_) => if has_attachment {
            Some(Seq::empty())
        } else {
            None
        },
    }
}

/// A listed clip as it is shown, if it is.
pub open spec fn entry_of(c: ListedClipView, content: Option<Seq<char>>) -> Option<EntryView> {
    match content {
        Some(text) => Some(
            EntryView {
                id: c.0,
                content_type: c.1,
                content: text,
                timestamp: c.3,
                pinned: c.4,
                is_locked: c.5,
                has_attachment: c.6,
                attachment: if c.6 {
                    c.7
                } else {
                    None
                },
            },
        ),
        None => None,
    }
}

/// A listed clip as it is shown under a key, if it is.
pub open spec fn shown(key: Seq<u8>, c: ListedClipView) -> Option<EntryView> {
    entry_of(c, content_of(crypto::decrypted(key, c.2), c.6))
}

/// What entries stand for.
pub open spec fn entry_views(v: Seq<HistoryEntry>) -> Seq<EntryView> {
    v.map_values(|e: HistoryEntry| e@)
}

/// The text that a clip shows, given what its payload holds.
pub fn content_from(body: Result<Vec<u8>, CryptoError>, has_attachment: bool) -> (r: Option<String>)
    ensures
        tables::opt_text(r) == content_of(crypto::bytes_result(body), has_attachment),
{
    match body {
        Ok(data) => from_utf8(data),
        Err(_) => if has_attachment {
            let empty = String::new();
            assert(empty@ =~= Seq::<char>::empty());
            Some(empty)
        } else {
            None
        },
    }
}

fn entry_from(c: &ListedClip, content: Option<String>) -> (r: Option<HistoryEntry>)
    ensures
        match r {
            Some(e) => entry_of(reading::listed_view(*c), tables::opt_text(content)) == Some(e@),
            None => entry_of(reading::listed_view(*c), tables::opt_text(content)) is None,
        },
{
    match content {
        Some(text) => Some(
            HistoryEntry {
                id: c.0,
                content_type: c.1.clone(),
                content: text,
                timestamp: c.3,
                pinned: c.4,
                is_locked: c.5,
                has_attachment: c.6,
                attachment: if c.6 {
                    copy_opt_text(&c.7)
                } else {
                    None
                },
            },
        ),
        None => None,
    }
}

/// The clips as they are shown, in the same order.
pub fn entries(crypto: &CryptoState, clips: &Vec<ListedClip>) -> (r: Vec<HistoryEntry>)
    requires
        crypto.wf(),
    ensures
        entry_views(r@) == reading::listed_views(clips@).filter_map(|c: ListedClipView| shown(crypto@, c)),
{
    let ghost f = |c: ListedClipView| shown(crypto@, c);
    let ghost all = reading::listed_views(clips@);
    let mut out: Vec<HistoryEntry> = Vec::new();
    let mut i: usize = 0;
    assert(all.take(0) =~= Seq::<ListedClipView>::empty());
    assert(entry_views(out@) =~= all.take(0).filter_map(f));
    while i < clips.len()
        invariant
            crypto.wf(),
            i <= clips@.len(),
            all == reading::listed_views(clips@),
            f == (|c: ListedClipView| shown(crypto@, c)),
            entry_views(out@) == all.take(i as int).filter_map(f),
        decreases clips@.len() - i,
    {
        let ghost so_far = entry_views(out@);
        proof {
            all.lemma_filter_map_take_succ(f, i as int);
            assert(all[i as int] == reading::listed_view(clips@[i as int]));
        }
        let c = &clips[i];
        let content = content_from(crypto.decrypt(c.2.as_slice()), c.6);
        match entry_from(c, content) {
            Some(e) => {
                let ghost v = e@;
                out.push(e);
                assert(entry_views(out@) =~= so_far.push(v));
                assert(so_far.push(v) =~= so_far + seq![v]);
            },
            None => {
                assert(so_far =~= so_far + Seq::<EntryView>::empty());
            },
        }
        i += 1;
    }
    assert(all.take(i as int) =~= all);
    out
}

/// The name that a stem is; none where there is no stem.
pub open spec fn name_from(stem: Seq<char>) -> Option<Seq<char>> {
    if stem.len() == 0 {
        None
    } else {
        Some(stem)
    }
}

/// Whether the attachment noted under a path has this name, or none.
pub open spec fn names_file(path: Seq<char>, name: Option<Seq<char>>) -> bool {
    exists|stem: Seq<char>| #[trigger] sync::has_stem(path, stem) && name == name_from(stem)
}

/// The name of the attachment of an entry: the stem of the path it was noted
/// under.
pub fn attachment_uuid(e: &HistoryEntry) -> (r: Option<String>)
    ensures
        match e@.attachment {
            Some(path) => names_file(path, tables::opt_text(r)) && (sync::is_plain_name(path) ==> tables::opt_text(r)
                == name_from(path)),
            None => r is None,
        },
        forall|name: Seq<char>|
            e@.attachment is Some && #[trigger] sync::leads_to(e@.attachment->0, name) ==> tables::opt_text(r) == Some(
                name,
            ),
{
    match &e.attachment {
        Some(path) => {
            let stem = file_stem(path.as_str());
            assert(sync::has_stem(path@, stem@));
            if chars_of(stem.as_str()).len() == 0 {
                None
            } else {
                Some(stem)
            }
        },
        None => None,
    }
}

// ---------------------------------------------------------------------------
// Laws
// ---------------------------------------------------------------------------

/// Whether an entry shows a clip of the store: it has the number, type and stamp
/// of the clip, its pin and its lock, and says whether it has an attachment; the
/// path of the attachment stands there if it has one. Its text is what the
/// payload of the clip opens to, or nothing where the payload cannot be opened
/// and there is an attachment.
pub open spec fn shows(key: Seq<u8>, e: HistoryEntry, c: ClipView) -> bool {
    &&& e.id == c.id
    &&& e.content_type@ == c.content_type
    &&& e.timestamp == c.timestamp
    &&& e.pinned <==> c.pinned
    &&& e.is_locked <==> c.is_locked
    &&& e.has_attachment <==> c.has_attachment
    &&& c.has_attachment ==> tables::opt_text(e.attachment) == c.attachment_path
    &&& !c.has_attachment ==> e.attachment is None
    &&& match crypto::decrypted(key, c.encrypted_payload) {
        Ok(data) => valid_utf8(data) && e.content@ == decode_utf8(data),
        Err(_) => c.has_attachment && e.content@.len() == 0,
    }
}

/// The same of what an entry stands for.
spec fn view_shows(key: Seq<u8>, e: EntryView, c: ClipView) -> bool {
    &&& e.id == c.id
    &&& e.content_type == c.content_type
    &&& e.timestamp == c.timestamp
    &&& e.pinned <==> c.pinned
    &&& e.is_locked <==> c.is_locked
    &&& e.has_attachment <==> c.has_attachment
    &&& c.has_attachment ==> e.attachment == c.attachment_path
    &&& !c.has_attachment ==> e.attachment is None
    &&& match crypto::decrypted(key, c.encrypted_payload) {
        Ok(data) => valid_utf8(data) && e.content == decode_utf8(data),
        Err(_) => c.has_attachment && e.content.len() == 0,
    }
}

/// Whether a clip can be shown: its payload opens to text, or cannot be opened
/// while there is an attachment.
pub open spec fn can_be_shown(key: Seq<u8>, c: ClipView) -> bool {
    match crypto::decrypted(key, c.encrypted_payload) {
        Ok(data) => valid_utf8(data),
        Err(_) => c.has_attachment,
    }
}

proof fn listed_clip_is_shown(key: Seq<u8>, c: ClipView)
    ensures
        shown(key, reading::listed(c)) is Some <==> can_be_shown(key, c),
        shown(key, reading::listed(c)) matches Some(e) ==> view_shows(key, e, c),
{
}

/// Where listed clips come from: increasing places from the end of the store.
proof fn listed_places(clips: Seq<ClipView>, p: spec_fn(ClipView) -> bool, k: int) -> (i: int)
    requires
        0 <= k < clips.filter(p).len(),
    ensures
        0 <= i < clips.len(),
        p(clips[i]),
        clips.filter(p).reverse()[k] == clips[i],
{
    let n = clips.filter(p).len();
    seqs::filter_origin(clips, p, n - 1 - k)
}

/// What entries there are for listed clips.
proof fn entries_show_clips(key: Seq<u8>, clips: Seq<ClipView>, listed: Seq<ListedClipView>, r: Seq<EntryView>, k: int)
    requires
        listed == reading::all_listed(clips),
        r == listed.filter_map(|c: ListedClipView| shown(key, c)),
        0 <= k < r.len(),
    ensures
        exists|i: int| 0 <= i < clips.len() && #[trigger] view_shows(key, r[k], clips[i]),
{
    let f = |c: ListedClipView| shown(key, c);
    let (i, _) = seqs::filter_map_origins(listed, f, k, k);
    assert(listed[i] == reading::listed(clips[i]));
    listed_clip_is_shown(key, clips[i]);
    assert(view_shows(key, r[k], clips[i]));
}

/// Each entry of the history shows a clip of the store that is not deleted, with
/// that clip's own number, type, stamp and marks.
pub proof fn history_shows_live_clips(
    db: Database,
    crypto: CryptoState,
    clips: Vec<ListedClip>,
    r: Vec<HistoryEntry>,
    k: int,
)
    requires
        call_ensures(Database::get_all_clips, (&db,), clips),
        call_ensures(entries, (&crypto, &clips), r),
        0 <= k < r@.len(),
    ensures
        exists|i: int|
            0 <= i < db@.clips.len() && !(#[trigger] db@.clips[i]).is_deleted && shows(crypto@, r@[k], db@.clips[i]),
{
    let live = |c: ClipView| !c.is_deleted;
    let found = db@.clips.filter(live).reverse();
    let newest = model::up_to(found, model::SHOWN_CLIPS as int);
    let v = entry_views(r@);
    assert(v[k] == r@[k]@);
    entries_show_clips(crypto@, newest, reading::listed_views(clips@), v, k);
    let m = choose|m: int| 0 <= m < newest.len() && #[trigger] view_shows(crypto@, v[k], newest[m]);
    assert(newest[m] == found[m]);
    let i = listed_places(db@.clips, live, m);
    assert(!db@.clips[i].is_deleted);
}

/// Each entry of the recycle bin shows a deleted clip of the store.
pub proof fn recycle_bin_shows_deleted_clips(
    db: Database,
    crypto: CryptoState,
    clips: Vec<ListedClip>,
    r: Vec<HistoryEntry>,
    k: int,
)
    requires
        call_ensures(Database::get_deleted_clips, (&db,), clips),
        call_ensures(entries, (&crypto, &clips), r),
        0 <= k < r@.len(),
    ensures
        exists|i: int|
            0 <= i < db@.clips.len() && (#[trigger] db@.clips[i]).is_deleted && shows(crypto@, r@[k], db@.clips[i]),
{
    let gone = |c: ClipView| c.is_deleted;
    let found = db@.clips.filter(gone).reverse();
    let v = entry_views(r@);
    assert(v[k] == r@[k]@);
    entries_show_clips(crypto@, found, reading::listed_views(clips@), v, k);
    let m = choose|m: int| 0 <= m < found.len() && #[trigger] view_shows(crypto@, v[k], found[m]);
    let i = listed_places(db@.clips, gone, m);
    assert(db@.clips[i].is_deleted);
}

/// A clip that can be shown is shown: in the recycle bin if it is deleted, and
/// in the history if it is not and fewer than a hundred clips behind it are not
/// deleted either.
pub proof fn clips_are_shown(
    db: Database,
    crypto: CryptoState,
    listed: Vec<ListedClip>,
    history: Vec<HistoryEntry>,
    bin: Vec<ListedClip>,
    deleted: Vec<HistoryEntry>,
    i: int,
)
    requires
        call_ensures(Database::get_all_clips, (&db,), listed),
        call_ensures(entries, (&crypto, &listed), history),
        call_ensures(Database::get_deleted_clips, (&db,), bin),
        call_ensures(entries, (&crypto, &bin), deleted),
        0 <= i < db@.clips.len(),
        can_be_shown(crypto@, db@.clips[i]),
    ensures
        db@.clips[i].is_deleted ==> exists|k: int|
            0 <= k < deleted@.len() && shows(crypto@, #[trigger] deleted@[k], db@.clips[i]),
        !db@.clips[i].is_deleted && db@.clips.skip(i + 1).filter(|c: ClipView| !c.is_deleted).len() < 100 ==> exists|
            k: int,
        |
            0 <= k < history@.len() && shows(crypto@, #[trigger] history@[k], db@.clips[i]),
{
    let c = db@.clips[i];
    let key = crypto@;
    let f = |c: ListedClipView| shown(key, c);
    listed_clip_is_shown(key, c);
    if c.is_deleted {
        let gone = |c: ClipView| c.is_deleted;
        let found = db@.clips.filter(gone);
        let n = seqs::filter_keeps(db@.clips, gone, i);
        let at = found.len() - 1 - n;
        assert(found.reverse()[at] == c);
        assert(reading::listed_views(bin@)[at] == reading::listed(c));
        let k = seqs::filter_map_keeps(reading::listed_views(bin@), f, at);
        assert(entry_views(deleted@)[k] == deleted@[k]@);
    } else if db@.clips.skip(i + 1).filter(|c: ClipView| !c.is_deleted).len() < 100 {
        let live = |c: ClipView| !c.is_deleted;
        let found = db@.clips.filter(live);
        let front = db@.clips.take(i + 1);
        let back = db@.clips.skip(i + 1);
        assert(db@.clips =~= front + back);
        Seq::filter_distributes_over_add(front, back, live);
        seqs::filter_step(db@.clips, live, i);
        let at = back.filter(live).len() as int;
        assert(found[found.len() - 1 - at] == front.filter(live).last());
        assert(found.reverse()[at] == c);
        let newest = model::up_to(found.reverse(), model::SHOWN_CLIPS as int);
        assert(newest[at] == c);
        assert(reading::listed_views(listed@)[at] == reading::listed(c));
        let k = seqs::filter_map_keeps(reading::listed_views(listed@), f, at);
        assert(entry_views(history@)[k] == history@[k]@);
    }
}

/// The history shows a hundred clips at most, those with the larger numbers
/// first, and so does the recycle bin with all of its.
pub proof fn newest_come_first(
    db: Database,
    crypto: CryptoState,
    listed: Vec<ListedClip>,
    history: Vec<HistoryEntry>,
    bin: Vec<ListedClip>,
    deleted: Vec<HistoryEntry>,
    a: int,
    b: int,
)
    requires
        db@.wf(),
        call_ensures(Database::get_all_clips, (&db,), listed),
        call_ensures(entries, (&crypto, &listed), history),
        call_ensures(Database::get_deleted_clips, (&db,), bin),
        call_ensures(entries, (&crypto, &bin), deleted),
    ensures
        history@.len() <= 100,
        0 <= a < b < history@.len() ==> history@[a].id > history@[b].id,
        0 <= a < b < deleted@.len() ==> deleted@[a].id > deleted@[b].id,
{
    let live = |c: ClipView| !c.is_deleted;
    let gone = |c: ClipView| c.is_deleted;
    let newest = model::up_to(db@.clips.filter(live).reverse(), model::SHOWN_CLIPS as int);
    let f = |c: ListedClipView| shown(crypto@, c);
    let v = entry_views(history@);
    let w = entry_views(deleted@);
    assert(v.len() == history@.len() && w.len() == deleted@.len());
    if v.len() > 100 {
        let (x, y) = seqs::filter_map_origins(reading::listed_views(listed@), f, 0, v.len() - 1);
        filter_map_is_no_longer(reading::listed_views(listed@), f);
    }
    if 0 <= a < b < history@.len() {
        let (x, y) = seqs::filter_map_origins(reading::listed_views(listed@), f, a, b);
        assert(v[a] == history@[a]@ && v[b] == history@[b]@);
        assert(reading::listed_views(listed@)[x] == reading::listed(newest[x]));
        assert(reading::listed_views(listed@)[y] == reading::listed(newest[y]));
        listed_clip_is_shown(crypto@, newest[x]);
        listed_clip_is_shown(crypto@, newest[y]);
        let n = db@.clips.filter(live).len();
        let (p, q) = seqs::filter_keeps_order(db@.clips, live, n - 1 - y, n - 1 - x);
        assert(db@.clips[p].id < db@.clips[q].id);
    }
    if 0 <= a < b < deleted@.len() {
        let found = db@.clips.filter(gone).reverse();
        let (x, y) = seqs::filter_map_origins(reading::listed_views(bin@), f, a, b);
        assert(w[a] == deleted@[a]@ && w[b] == deleted@[b]@);
        assert(reading::listed_views(bin@)[x] == reading::listed(found[x]));
        assert(reading::listed_views(bin@)[y] == reading::listed(found[y]));
        listed_clip_is_shown(crypto@, found[x]);
        listed_clip_is_shown(crypto@, found[y]);
        let n = found.len();
        let (p, q) = seqs::filter_keeps_order(db@.clips, gone, n - 1 - y, n - 1 - x);
        assert(db@.clips[p].id < db@.clips[q].id);
    }
}

proof fn filter_map_is_no_longer<A, B>(s: Seq<A>, f: spec_fn(A) -> Option<B>)
    ensures
        s.filter_map(f).len() <= s.len(),
    decreases s.len(),
{
    if s.len() > 0 {
        filter_map_is_no_longer(s.drop_last(), f);
    }
}

/// The payload that counts as the latest is that of a clip that is not deleted
/// and has no such clip behind it.
pub proof fn latest_payload_is_the_newest(db: Database, r: Option<Vec<u8>>, i: int)
    requires
        call_ensures(Database::get_latest_hash, (&db,), r),
        0 <= i < db@.clips.len(),
    ensures
        !db@.clips[i].is_deleted && (forall|j: int| i < j < db@.clips.len() ==> (#[trigger] db@.clips[j]).is_deleted)
            ==> tables::opt_bytes(r) == Some(db@.clips[i].encrypted_payload),
        r is None ==> db@.clips[i].is_deleted,
{
    let live = |c: ClipView| !c.is_deleted;
    let clips = db@.clips;
    if !clips[i].is_deleted {
        let n = seqs::filter_keeps(clips, live, i);
        if forall|j: int| i < j < clips.len() ==> (#[trigger] clips[j]).is_deleted {
            let front = clips.take(i + 1);
            let back = clips.skip(i + 1);
            assert(clips =~= front + back);
            Seq::filter_distributes_over_add(front, back, live);
            seqs::filter_step(clips, live, i);
            if back.filter(live).len() > 0 {
                let k = seqs::filter_origin(back, live, 0);
                assert(back[k] == clips[i + 1 + k]);
            }
            assert(clips.filter(live) =~= front.filter(live));
        }
    }
}

/// The clip with a number is found by it, with its own type and payload.
pub proof fn clip_is_found_by_its_number(db: Database, r: Option<(String, Vec<u8>)>, i: int, id: i64)
    requires
        db@.wf(),
        call_ensures(Database::get_clip_by_id, (&db, id), r),
        0 <= i < db@.clips.len(),
    ensures
        db@.clips[i].id == id ==> (r matches Some(t) && t.0@ == db@.clips[i].content_type && t.1@
            == db@.clips[i].encrypted_payload),
        r is Some ==> exists|k: int| 0 <= k < db@.clips.len() && (#[trigger] db@.clips[k]).id == id,
{
    crate::laws::changes::clip_found(db@.clips, db@.clip_seq, i);
}

/// A listed clip is a clip of the store that is not deleted, told by its number,
/// type, payload, stamp, whether it is pinned, whether it is locked, whether it
/// has an attachment, and the path of that.
pub proof fn listed_clips_are_live(db: Database, r: Vec<ListedClip>, k: int) -> (i: int)
    requires
        call_ensures(Database::get_all_clips, (&db,), r),
        0 <= k < r@.len(),
    ensures
        0 <= i < db@.clips.len(),
        !db@.clips[i].is_deleted,
        r@[k].0 == db@.clips[i].id,
        r@[k].1@ == db@.clips[i].content_type,
        r@[k].2@ == db@.clips[i].encrypted_payload,
        r@[k].3 == db@.clips[i].timestamp,
        r@[k].4 == db@.clips[i].pinned,
        r@[k].5 == db@.clips[i].is_locked,
        r@[k].6 == db@.clips[i].has_attachment,
        tables::opt_text(r@[k].7) == db@.clips[i].attachment_path,
{
    let live = |c: ClipView| !c.is_deleted;
    let found = db@.clips.filter(live).reverse();
    let newest = model::up_to(found, model::SHOWN_CLIPS as int);
    let v = reading::listed_views(r@);
    assert(v.len() == r@.len());
    assert(v[k] == reading::listed_view(r@[k]));
    assert(newest[k] == found[k]);
    let i = listed_places(db@.clips, live, k);
    i
}

/// A clip that is listed as deleted is one of the store that is, told in the
/// same way.
pub proof fn deleted_clips_are_listed(db: Database, r: Vec<ListedClip>, k: int) -> (i: int)
    requires
        call_ensures(Database::get_deleted_clips, (&db,), r),
        0 <= k < r@.len(),
    ensures
        0 <= i < db@.clips.len(),
        db@.clips[i].is_deleted,
        r@[k].0 == db@.clips[i].id,
        r@[k].1@ == db@.clips[i].content_type,
        r@[k].2@ == db@.clips[i].encrypted_payload,
        r@[k].3 == db@.clips[i].timestamp,
        r@[k].4 == db@.clips[i].pinned,
        r@[k].5 == db@.clips[i].is_locked,
        r@[k].6 == db@.clips[i].has_attachment,
        tables::opt_text(r@[k].7) == db@.clips[i].attachment_path,
{
    let gone = |c: ClipView| c.is_deleted;
    let found = db@.clips.filter(gone).reverse();
    let v = reading::listed_views(r@);
    assert(v.len() == r@.len());
    assert(v[k] == reading::listed_view(r@[k]));
    let i = listed_places(db@.clips, gone, k);
    i
}

/// The attachment of an entry is named by the stem of its path: a plain name is
/// its own, and an entry without a path, or with an empty one, has none.
pub proof fn entries_name_their_attachment(e: HistoryEntry, r: Option<String>)
    requires
        call_ensures(attachment_uuid, (&e,), r),
    ensures
        e.attachment is None ==> r is None,
        e.attachment is Some && e.attachment->0@.len() == 0 ==> r is None,
        e.attachment is Some && e.attachment->0@.len() > 0 && sync::is_plain_name(e.attachment->0@) ==> r is Some && r->0@
            == e.attachment->0@,
        e.attachment is Some ==> forall|name: Seq<char>|
            #[trigger] sync::leads_to(e.attachment->0@, name) ==> r is Some && r->0@ == name,
        e.attachment is Some && r is Some ==> r->0@.len() > 0 && sync::has_stem(e.attachment->0@, r->0@),
{
}

/// The text of a clip is what its payload encodes, and nothing is shown of one
/// that encodes no text. A payload that could not be opened shows an empty text
/// where there is an attachment, and nothing otherwise.
pub proof fn opened_text_is_shown(body: Result<Vec<u8>, CryptoError>, has_attachment: bool, r: Option<String>, text: Seq<char>)
    requires
        call_ensures(content_from, (body, has_attachment), r),
    ensures
        body is Ok && body->Ok_0@ == encode_utf8(text) ==> r is Some && r->0@ == text,
        body is Ok && !valid_utf8(body->Ok_0@) ==> r is None,
        body is Err && has_attachment ==> r is Some && r->0@.len() == 0,
        body is Err && !has_attachment ==> r is None,
{
    encode_utf8_valid_utf8(text);
    encode_utf8_decode_utf8(text);
}

} // verus!
