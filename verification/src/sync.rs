//! How two devices exchange their events.
use crate::crypto;
use crate::crypto::{fresh_nonce, CryptoError, CryptoState};
use crate::db::Database;
use crate::model;
use crate::model::{DbError, DbView};
use crate::primitives;
use crate::primitives::now_micros;
use crate::storage;
use crate::storage::FileForm;
use crate::tables;
use crate::tables::{Clocks, SyncEvent, SyncEventView};
use vstd::prelude::*;

verus! {

broadcast use vstd::seq_lib::group_seq_properties;

/// With a request a device pushes this many of its last events.
pub const PUSHED: i64 = 200;

/// An answer holds this many events.
pub const ANSWERED: i64 = 50;

/// Events are pushed in batches of this many.
pub const BATCH: usize = 50;

// ---------------------------------------------------------------------------
// Payloads
// ---------------------------------------------------------------------------

/// An event with its payload opened. A payload that cannot be opened stays as
/// it is.
pub open spec fn opened(key: Seq<u8>, e: SyncEventView) -> SyncEventView {
    match e.payload {
        Some(p) => match crypto::decrypted(key, p) {
            Ok(data) => SyncEventView { payload: Some(data), ..e },
            Err(_) => e,
        },
        None => e,
    }
}

/// Events with their payloads opened.
pub open spec fn all_opened(key: Seq<u8>, events: Seq<SyncEventView>) -> Seq<SyncEventView> {
    events.map_values(|e: SyncEventView| opened(key, e))
}

/// An event with its payload sealed under a nonce. A payload that is too long
/// to be sealed stays as it is.
pub open spec fn sealed(key: Seq<u8>, e: SyncEventView, nonce: Seq<u8>) -> SyncEventView {
    match e.payload {
        Some(data) if data.len() <= crypto::MAX_PLAIN => SyncEventView {
            payload: Some(crypto::sealed_with(key, nonce, data)),
            ..e
        },
        _ => e,
    }
}

/// Whether the payload of an event opens to that of another, unless that one has
/// none that can be sealed.
pub open spec fn opens_to(key: Seq<u8>, e: SyncEventView, plain: SyncEventView) -> bool {
    match plain.payload {
        Some(data) => data.len() <= crypto::MAX_PLAIN ==> e.payload is Some && crypto::decrypted(key, e.payload->0)
            == Ok::<Seq<u8>, CryptoError>(data),
        None => true,
    }
}

/// Whether an event is another with its payload sealed under some nonce. What
/// was sealed opens to what it was.
pub open spec fn seals(key: Seq<u8>, plain: SyncEventView, e: SyncEventView) -> bool {
    exists|nonce: Seq<u8>|
        nonce.len() == crypto::NONCE_LEN && e == #[trigger] sealed(key, plain, nonce) && opens_to(key, e, plain)
}

/// Whether events are others with their payloads sealed.
pub open spec fn all_seal(key: Seq<u8>, plain: Seq<SyncEventView>, events: Seq<SyncEventView>) -> bool {
    plain.len() == events.len() && forall|i: int|
        0 <= i < plain.len() ==> seals(key, plain[i], #[trigger] events[i])
}

/// The events with their payloads opened.
pub fn open_payloads(crypto: &CryptoState, events: Vec<SyncEvent>) -> (r: Vec<SyncEvent>)
    requires
        crypto.wf(),
    ensures
        tables::sync_views(r@) == all_opened(crypto@, tables::sync_views(events@)),
{
    let ghost all = tables::sync_views(events@);
    let mut out: Vec<SyncEvent> = Vec::new();
    assert(tables::sync_views(out@) =~= all_opened(crypto@, all.take(0)));
    for e in it: events.into_iter()
        invariant
            crypto.wf(),
            it.seq() == events@,
            all == tables::sync_views(events@),
            tables::sync_views(out@) == all_opened(crypto@, all.take(it.index() as int)),
    {
        let ghost i = it.index() as int;
        let ghost so_far = tables::sync_views(out@);
        let ghost plain = e@;
        let mut e = e;
        let data: Option<Vec<u8>> = match &e.payload {
            Some(p) => match crypto.decrypt(p.as_slice()) {
                Ok(data) => Some(data),
                Err(_) => None,
            },
            None => None,
        };
        if data.is_some() {
            e.payload = data;
        }
        let ghost v = e@;
        out.push(e);
        proof {
            assert(all[i] == plain);
            assert(v == opened(crypto@, plain));
            assert(tables::sync_views(out@) =~= so_far.push(v));
            assert(all_opened(crypto@, all.take(i + 1)) =~= so_far.push(v));
        }
    }
    assert(all.take(all.len() as int) =~= all);
    out
}

/// An event with its payload sealed under a nonce; opening it gives the event
/// back.
pub fn seal_payload(crypto: &CryptoState, e: SyncEvent, nonce: &[u8]) -> (r: SyncEvent)
    requires
        crypto.wf(),
        nonce@.len() == crypto::NONCE_LEN,
    ensures
        r@ == sealed(crypto@, e@, nonce@),
        opens_to(crypto@, r@, e@),
{
    let ghost plain = e@;
    let mut e = e;
    let payload: Option<Vec<u8>> = match &e.payload {
        Some(data) => match crypto.encrypt_with(nonce, data.as_slice()) {
            Ok(payload) => Some(payload),
            Err(_) => None,
        },
        None => None,
    };
    if payload.is_some() {
        e.payload = payload;
        assert(opens_to(crypto@, e@, plain));
    }
    e
}

/// The nonce for the event in a place; none where there are fewer nonces.
pub open spec fn nonce_for(nonces: Seq<Option<Seq<u8>>>, i: int) -> Option<Seq<u8>> {
    if i < nonces.len() {
        nonces[i]
    } else {
        None
    }
}

/// Whether there is a nonce for every payload.
pub open spec fn nonces_suffice(events: Seq<SyncEventView>, nonces: Seq<Option<Seq<u8>>>) -> bool {
    forall|i: int| 0 <= i < events.len() && (#[trigger] events[i]).payload is Some ==> nonce_for(nonces, i) is Some
}

/// An event with its payload, if it has one, sealed under the nonce for it.
pub open spec fn sealed_if_any(key: Seq<u8>, e: SyncEventView, nonce: Option<Seq<u8>>) -> SyncEventView {
    match e.payload {
        Some(_) => sealed(key, e, nonce->0),
        None => e,
    }
}

/// Events with their payloads sealed, each under the nonce in its place.
pub open spec fn all_sealed(
    key: Seq<u8>,
    events: Seq<SyncEventView>,
    nonces: Seq<Option<Seq<u8>>>,
) -> Seq<SyncEventView> {
    Seq::new(events.len(), |i: int| sealed_if_any(key, events[i], nonce_for(nonces, i)))
}

/// The nonces in a list.
pub open spec fn nonce_views(nonces: Seq<Option<Vec<u8>>>) -> Seq<Option<Seq<u8>>> {
    nonces.map_values(|n: Option<Vec<u8>>| crypto::opt_seq(n))
}

/// Whether the nonces in a list have their length.
pub open spec fn nonces_fit(nonces: Seq<Option<Vec<u8>>>) -> bool {
    forall|i: int| 0 <= i < nonces.len() ==> (#[trigger] nonces[i] matches Some(n) ==> n@.len() == crypto::NONCE_LEN)
}

/// An event without a payload is its own sealed form.
proof fn nothing_to_seal(key: Seq<u8>, e: SyncEventView)
    requires
        e.payload is None,
    ensures
        seals(key, e, e),
{
    let nonce = Seq::new(crypto::NONCE_LEN as nat, |i: int| 0u8);
    assert(e == sealed(key, e, nonce));
}

/// The events with their payloads sealed, each under the nonce in its place;
/// nothing where a payload has no nonce.
pub fn seal_payloads_with(crypto: &CryptoState, events: Vec<SyncEvent>, nonces: &Vec<Option<Vec<u8>>>) -> (r: Option<
    Vec<SyncEvent>,
>)
    requires
        crypto.wf(),
        nonces_fit(nonces@),
    ensures
        r is Some == nonces_suffice(tables::sync_views(events@), nonce_views(nonces@)),
        r matches Some(out) ==> tables::sync_views(out@) == all_sealed(
            crypto@,
            tables::sync_views(events@),
            nonce_views(nonces@),
        ),
        r matches Some(out) ==> all_seal(crypto@, tables::sync_views(events@), tables::sync_views(out@)),
{
    let ghost all = tables::sync_views(events@);
    let ghost under = nonce_views(nonces@);
    let mut out: Vec<SyncEvent> = Vec::new();
    for e in it: events.into_iter()
        invariant
            crypto.wf(),
            nonces_fit(nonces@),
            it.seq() == events@,
            all == tables::sync_views(events@),
            under == nonce_views(nonces@),
            tables::sync_views(out@).len() == it.index(),
            forall|k: int|
                0 <= k < it.index() && (#[trigger] all[k]).payload is Some ==> nonce_for(under, k) is Some,
            forall|k: int|
                0 <= k < it.index() ==> #[trigger] tables::sync_views(out@)[k] == sealed_if_any(
                    crypto@,
                    all[k],
                    nonce_for(under, k),
                ) && seals(crypto@, all[k], tables::sync_views(out@)[k]),
    {
        let ghost i = it.index() as int;
        let ghost so_far = tables::sync_views(out@);
        let ghost plain = e@;
        let at: usize = out.len();
        assert(so_far.len() == i && all[i] == plain);
        let e = if e.payload.is_some() {
            if at >= nonces.len() {
                assert(nonce_for(under, i) is None);
                return None;
            }
            match &nonces[at] {
                Some(n) => {
                    let e = seal_payload(crypto, e, n.as_slice());
                    assert(nonce_for(under, i) == Some(n@));
                    assert(e@ == sealed(crypto@, plain, n@));
                    assert(seals(crypto@, plain, e@));
                    e
                },
                None => {
                    assert(nonce_for(under, i) is None);
                    return None;
                },
            }
        } else {
            proof {
                nothing_to_seal(crypto@, plain);
            }
            e
        };
        let ghost v = e@;
        out.push(e);
        proof {
            assert(tables::sync_views(out@) =~= so_far.push(v));
            assert forall|k: int| 0 <= k < i + 1 implies #[trigger] tables::sync_views(out@)[k] == sealed_if_any(
                crypto@,
                all[k],
                nonce_for(under, k),
            ) && seals(crypto@, all[k], tables::sync_views(out@)[k]) by {
                if k < i {
                    assert(tables::sync_views(out@)[k] == so_far[k]);
                }
            }
        }
    }
    assert(tables::sync_views(out@) =~= all_sealed(crypto@, all, under));
    Some(out)
}

/// A nonce for every payload, as far as the machine gives random bytes.
fn fresh_nonces(events: &Vec<SyncEvent>) -> (r: Vec<Option<Vec<u8>>>)
    ensures
        r@.len() == events@.len(),
        nonces_fit(r@),
{
    let mut out: Vec<Option<Vec<u8>>> = Vec::new();
    while out.len() < events.len()
        invariant
            out@.len() <= events@.len(),
            nonces_fit(out@),
        decreases events@.len() - out@.len(),
    {
        let nonce = if events[out.len()].payload.is_some() {
            fresh_nonce()
        } else {
            None
        };
        out.push(nonce);
    }
    out
}

// ---------------------------------------------------------------------------
// Requests and answers
// ---------------------------------------------------------------------------

/// What a device asks another with: who it is, how far it has followed whom,
/// and its own last events.
pub struct SyncRequest {
    pub device_id: String,
    pub peer_sync_state: Clocks,
    pub pushed_events: Vec<SyncEvent>,
}

/// The request of a device.
pub fn sync_request(db: &Database, crypto: &CryptoState) -> (r: SyncRequest)
    requires
        db.wf(),
        crypto.wf(),
    ensures
        r.device_id@ == db@.device_id,
        r.peer_sync_state.wf(),
        r.peer_sync_state@ == db@.sync_states(),
        tables::sync_views(r.pushed_events@) == all_opened(crypto@, db@.recent_events(PUSHED as int)),
{
    SyncRequest {
        device_id: db.device_id().clone(),
        peer_sync_state: db.get_all_sync_states(),
        pushed_events: open_payloads(crypto, db.get_recent_events(PUSHED)),
    }
}

/// The answer to a device with those clocks: the events it is missing, opened.
pub open spec fn answer(db: DbView, key: Seq<u8>, clocks: Map<Seq<char>, int>) -> Seq<SyncEventView> {
    all_opened(key, db.missing_events(clocks, ANSWERED as int))
}

/// The answer to a device with those clocks.
pub fn answer_events(db: &Database, crypto: &CryptoState, clocks: &Clocks) -> (r: Vec<SyncEvent>)
    requires
        db.wf(),
        crypto.wf(),
        clocks.wf(),
    ensures
        tables::sync_views(r@) == answer(db@, crypto@, clocks@),
{
    open_payloads(crypto, db.get_missing_events(clocks, ANSWERED))
}

/// Takes over events that a peer handed over in the open, at a reading of the
/// machine's clock: they are sealed first, each under the nonce in its place.
/// Nothing changes where a payload has no nonce.
pub fn take_over_with(
    db: &mut Database,
    crypto: &CryptoState,
    events: Vec<SyncEvent>,
    nonces: &Vec<Option<Vec<u8>>>,
    now: i64,
) -> (r: Result<(), DbError>)
    requires
        old(db).wf(),
        crypto.wf(),
        nonces_fit(nonces@),
    ensures
        final(db).wf(),
        ({
            let plain = tables::sync_views(events@);
            let under = nonce_views(nonces@);
            if nonces_suffice(plain, under) {
                let sealed = all_sealed(crypto@, plain, under);
                (final(db)@, r) == old(db)@.apply_sync_events(sealed, now as int) && all_seal(crypto@, plain, sealed)
            } else {
                final(db)@ == old(db)@ && r == Err::<(), DbError>(DbError::NoRandomness)
            }
        }),
{
    match seal_payloads_with(crypto, events, nonces) {
        Some(sealed) => db.apply_sync_events_at(&sealed, now),
        None => Err(DbError::NoRandomness),
    }
}

/// Whether a store is what is left after the events were taken over at some
/// time, every payload sealed under some nonce.
pub open spec fn taken_over(
    before: DbView,
    key: Seq<u8>,
    plain: Seq<SyncEventView>,
    after: DbView,
    r: Result<(), DbError>,
) -> bool {
    exists|sealed: Seq<SyncEventView>, now: int|
        all_seal(key, plain, sealed) && (after, r) == #[trigger] before.apply_sync_events(sealed, now)
}

/// Whether an event among these has a payload.
pub open spec fn some_payload(events: Seq<SyncEventView>) -> bool {
    exists|i: int| 0 <= i < events.len() && (#[trigger] events[i]).payload is Some
}

/// Whether a store is what is left, and this is the answer, after events were to
/// be taken over. Nothing changes where the clock of the machine is set to
/// before 1970, or the machine gives no random bytes for a payload.
pub open spec fn takes_over(
    before: DbView,
    key: Seq<u8>,
    plain: Seq<SyncEventView>,
    after: DbView,
    r: Result<(), DbError>,
) -> bool {
    match r {
        Err(DbError::ClockBeforeEpoch) => after == before,
        Err(DbError::NoRandomness) => after == before && some_payload(plain),
        _ => taken_over(before, key, plain, after, r),
    }
}

/// Takes over events that a peer handed over in the open: they are sealed
/// first.
pub fn take_over(db: &mut Database, crypto: &CryptoState, events: Vec<SyncEvent>) -> (r: Result<(), DbError>)
    requires
        old(db).wf(),
        crypto.wf(),
    ensures
        final(db).wf(),
        takes_over(old(db)@, crypto@, tables::sync_views(events@), final(db)@, r),
{
    let ghost plain = tables::sync_views(events@);
    let nonces = fresh_nonces(&events);
    match now_micros() {
        Some(now) => {
            let r = take_over_with(db, crypto, events, &nonces, now);
            proof {
                let under = nonce_views(nonces@);
                if nonces_suffice(plain, under) {
                    let sealed = all_sealed(crypto@, plain, under);
                    assert((db@, r) == old(db)@.apply_sync_events(sealed, now as int));
                    only_a_full_store_refuses(old(db)@, sealed, now as int);
                }
            }
            r
        },
        None => Err(DbError::ClockBeforeEpoch),
    }
}

/// Taking over events fails only where no row number is left.
pub proof fn only_a_full_store_refuses(db: DbView, evts: Seq<SyncEventView>, now: int)
    ensures
        db.apply_sync_events(evts, now).1 matches Err(e) ==> e == DbError::Full,
    decreases evts.len(),
{
    if evts.len() > 0 {
        only_a_full_store_refuses(db, evts.drop_last(), now);
    }
}

/// Answers the request of a peer: its pushed events are taken over, and what it
/// is missing then is handed out.
pub fn answer_request(db: &mut Database, crypto: &CryptoState, pushed: Vec<SyncEvent>, clocks: &Clocks) -> (r: (
    Vec<SyncEvent>,
    Result<(), DbError>,
))
    requires
        old(db).wf(),
        crypto.wf(),
        clocks.wf(),
    ensures
        final(db).wf(),
        tables::sync_views(r.0@) == answer(final(db)@, crypto@, clocks@),
        pushed@.len() == 0 ==> final(db)@ == old(db)@ && r.1 is Ok,
        takes_over(old(db)@, crypto@, tables::sync_views(pushed@), final(db)@, r.1),
{
    let ghost plain = tables::sync_views(pushed@);
    let applied = if pushed.len() > 0 {
        take_over(db, crypto, pushed)
    } else {
        proof {
            assert(all_seal(crypto@, plain, Seq::<SyncEventView>::empty()));
            assert((db@, Ok::<(), DbError>(())) == db@.apply_sync_events(Seq::<SyncEventView>::empty(), 0));
        }
        Ok(())
    };
    let events = answer_events(db, crypto, clocks);
    (events, applied)
}

// ---------------------------------------------------------------------------
// Attachments
// ---------------------------------------------------------------------------

/// A file name without directories or extension.
pub open spec fn is_plain_name(s: Seq<char>) -> bool {
    forall|i: int|
        0 <= i < s.len() ==> (#[trigger] s[i]) != '/' && s[i] != '\\' && s[i] != '.' && s[i] != ':'
}

/// Whether `Path::file_stem` gives this stem for a path; no characters stand for
/// none. What the parts of a path are depends on the machine, so there may be
/// more than one such stem.
pub uninterp spec fn has_stem(path: Seq<char>, stem: Seq<char>) -> bool;

/// Whether a character separates the parts of a path on some machine.
pub open spec fn may_separate(c: char) -> bool {
    c == '/' || c == '\\'
}

/// Whether on every machine a slash separates the parts of a path: it does not
/// start with two separators, as the paths do that name a server or are taken
/// literally.
pub open spec fn is_plain_path(path: Seq<char>) -> bool {
    !(path.len() >= 2 && may_separate(path[0]) && may_separate(path[1]))
}

/// Whether a path leads to the file of that name in some directory, with an
/// ending behind a dot.
pub open spec fn leads_to(path: Seq<char>, name: Seq<char>) -> bool {
    &&& is_plain_path(path)
    &&& name.len() > 0 && is_plain_name(name)
    &&& exists|dir: Seq<char>, ext: Seq<char>|
        ext.len() > 0 && is_plain_name(ext) && path == #[trigger] storage::in_directory(dir, name + seq!['.'] + ext)
}

/// `Path::file_stem` as text, empty where there is none: the part of the last
/// component before its last dot. A name without separators and dots is its own
/// stem, the empty path has none, and the stem of a file in a directory is its
/// name without the ending. Of a path whose last part follows a backslash, and
/// of one that starts with two separators, nothing more is said: what its last
/// part is depends on the machine.
#[verifier::external_body]
pub(crate) fn file_stem(path: &str) -> (r: String)
    ensures
        has_stem(path@, r@),
        is_plain_name(path@) ==> r@ == path@,
        forall|name: Seq<char>| #[trigger] leads_to(path@, name) ==> r@ == name,
{
    std::path::Path::new(path).file_stem().unwrap_or_default().to_string_lossy().to_string()
}

/// The name of the attachment of a clip, given the stem of the path it was
/// noted under: the stem, or the uuid of the clip where there is none.
pub open spec fn attachment_name(stem: Seq<char>, clip_uuid: Seq<char>) -> Seq<char> {
    if stem.len() == 0 {
        clip_uuid
    } else {
        stem
    }
}

/// The name of the attachment of a clip, given the stem of its path.
pub fn attachment_from(stem: &str, clip_uuid: &str) -> (r: String)
    ensures
        r@ == attachment_name(stem@, clip_uuid@),
{
    if crate::text::chars_of(stem).len() == 0 {
        clip_uuid.to_owned()
    } else {
        stem.to_owned()
    }
}

/// The path under which the attachment of an event was noted.
pub open spec fn noted_path(e: SyncEventView) -> Seq<char> {
    match e.attachment_path {
        Some(path) => path,
        None => Seq::empty(),
    }
}

/// Whether the attachment of an event has this name.
pub open spec fn names_attachment(e: SyncEventView, name: Seq<char>) -> bool {
    exists|stem: Seq<char>|
        #[trigger] has_stem(noted_path(e), stem) && name == attachment_name(stem, e.clip_uuid)
}

/// The attachment that comes with an event, by its name.
pub fn attachment_of(e: &SyncEvent) -> (r: Option<String>)
    ensures
        r is Some <==> e@.has_attachment == Some(true),
        r matches Some(name) ==> names_attachment(e@, name@),
        r matches Some(name) ==> is_plain_name(noted_path(e@)) ==> name@ == attachment_name(noted_path(e@), e@.clip_uuid),
        forall|stem: Seq<char>| r is Some && #[trigger] leads_to(noted_path(e@), stem) ==> r->0@ == stem,
{
    if e.has_attachment == Some(true) {
        let stem = match &e.attachment_path {
            Some(p) => file_stem(p.as_str()),
            None => {
                let none = String::new();
                assert(none@ =~= Seq::<char>::empty());
                file_stem(none.as_str())
            },
        };
        assert(has_stem(noted_path(e@), stem@));
        Some(attachment_from(stem.as_str(), e.clip_uuid.as_str()))
    } else {
        None
    }
}

/// The name of the attachment at a path: its stem.
pub fn attachment_at(path: &str) -> (r: String)
    ensures
        has_stem(path@, r@),
        is_plain_name(path@) ==> r@ == path@,
        forall|name: Seq<char>| #[trigger] leads_to(path@, name) ==> r@ == name,
{
    file_stem(path)
}

/// Whether an attachment has to be fetched, given which of its files are there.
pub fn must_fetch(plain_exists: bool, legacy_exists: bool) -> (r: bool)
    ensures
        r == (!plain_exists && !legacy_exists),
{
    !plain_exists && !legacy_exists
}

// ---------------------------------------------------------------------------
// Batches
// ---------------------------------------------------------------------------

/// A batch of events, by the place of its first.
pub fn batch(events: &Vec<SyncEvent>, from: usize) -> (r: Vec<SyncEvent>)
    requires
        from <= events@.len(),
    ensures
        tables::sync_views(r@) == model::up_to(tables::sync_views(events@).skip(from as int), BATCH as int),
{
    let to: usize = if events.len() - from >= BATCH {
        from + BATCH
    } else {
        events.len()
    };
    let ghost all = tables::sync_views(events@);
    let mut out: Vec<SyncEvent> = Vec::new();
    let mut i: usize = from;
    assert(tables::sync_views(out@) =~= all.subrange(from as int, from as int));
    while i < to
        invariant
            from <= i <= to <= events@.len(),
            all == tables::sync_views(events@),
            tables::sync_views(out@) == all.subrange(from as int, i as int),
        decreases to - i,
    {
        let ghost so_far = tables::sync_views(out@);
        let e = events[i].copy();
        let ghost v = e@;
        out.push(e);
        proof {
            assert(all[i as int] == v);
            assert(tables::sync_views(out@) =~= so_far.push(v));
            assert(all.subrange(from as int, i as int + 1) =~= so_far.push(v));
        }
        i += 1;
    }
    assert(all.subrange(from as int, to as int) =~= model::up_to(all.skip(from as int), BATCH as int));
    out
}

/// The batches in which events are pushed, one after the other.
pub fn batches(events: &Vec<SyncEvent>) -> (r: Vec<Vec<SyncEvent>>)
    ensures
        r@.len() == (events@.len() + BATCH - 1) / BATCH as int,
        forall|i: int|
            0 <= i < r@.len() ==> tables::sync_views(#[trigger] r@[i]@) == model::up_to(
                tables::sync_views(events@).skip(i * BATCH),
                BATCH as int,
            ),
{
    let mut out: Vec<Vec<SyncEvent>> = Vec::new();
    let mut from: usize = 0;
    let mut done = events.len() == 0;
    while !done
        invariant
            from <= events@.len(),
            done ==> out@.len() == (events@.len() + BATCH - 1) / BATCH as int,
            !done ==> from < events@.len() && from == out@.len() * BATCH,
            forall|i: int|
                0 <= i < out@.len() ==> tables::sync_views(#[trigger] out@[i]@) == model::up_to(
                    tables::sync_views(events@).skip(i * BATCH),
                    BATCH as int,
                ),
        decreases events@.len() - from,
            if done {
                0int
            } else {
                1int
            },
    {
        out.push(batch(events, from));
        if events.len() - from > BATCH {
            from += BATCH;
        } else {
            done = true;
        }
    }
    out
}

/// The batches of events from a place on, put together.
pub open spec fn batches_joined(events: Seq<SyncEventView>, from: int) -> Seq<SyncEventView>
    decreases
        if from < events.len() {
            events.len() - from
        } else {
            0
        },
{
    if from >= events.len() {
        Seq::empty()
    } else {
        model::up_to(events.skip(from), BATCH as int) + batches_joined(events, from + BATCH)
    }
}

/// The batches put together are the events.
pub proof fn batches_make_up_the_events(events: Seq<SyncEventView>, from: int)
    requires
        0 <= from,
    ensures
        batches_joined(events, from) == if from < events.len() {
            events.skip(from)
        } else {
            Seq::empty()
        },
    decreases
        if from < events.len() {
            events.len() - from
        } else {
            0
        },
{
    if from < events.len() {
        batches_make_up_the_events(events, from + BATCH);
        assert(batches_joined(events, from) =~= events.skip(from));
    }
}

// ---------------------------------------------------------------------------
// Laws
// ---------------------------------------------------------------------------

/// A payload sealed on one device and handed over is sealed again on the other:
/// what the other then holds opens to what the first had sealed, under the same
/// key. The payload has to be short enough to be sealed at all.
pub proof fn payload_survives_the_exchange(
    key: Seq<u8>,
    stored: SyncEventView,
    resealed: SyncEventView,
    data: Seq<u8>,
)
    requires
        stored.payload matches Some(p) && crypto::decrypted(key, p) == Ok::<Seq<u8>, CryptoError>(data),
        data.len() <= crypto::MAX_PLAIN,
        seals(key, opened(key, stored), resealed),
    ensures
        resealed.payload matches Some(p) && crypto::decrypted(key, p) == Ok::<Seq<u8>, CryptoError>(data),
        resealed == (SyncEventView { payload: resealed.payload, ..stored }),
{
}

/// A random uuid is a plain name.
pub proof fn uuids_are_plain_names(uuid: Seq<char>)
    requires
        primitives::uuid_shaped(uuid),
    ensures
        uuid.len() > 0,
        is_plain_name(uuid),
{
}

/// The file of an attachment, in every form, leads back to the attachment: it
/// is named by the stem of the file's path.
pub proof fn attachment_files_lead_back(dir: Seq<char>, name: Seq<char>, form: FileForm)
    requires
        name.len() > 0,
        is_plain_name(name),
        is_plain_path(storage::in_directory(dir, name + storage::ending(form))),
    ensures
        leads_to(storage::in_directory(dir, name + storage::ending(form)), name),
{
    reveal_strlit(".enc");
    reveal_strlit(".png");
    reveal_strlit(".bin");
    let ending = storage::ending(form);
    let ext = ending.skip(1);
    assert(ending =~= seq!['.'] + ext);
    assert(name + ending =~= name + seq!['.'] + ext);
    assert(storage::in_directory(dir, name + ending) == storage::in_directory(dir, name + seq!['.'] + ext));
}

/// Opening the payloads of events keeps every event in its place and touches
/// nothing but payloads: one that can be decrypted becomes what was encrypted,
/// any other stays as it is.
pub proof fn opening_touches_only_payloads(crypto: CryptoState, events: Vec<SyncEvent>, r: Vec<SyncEvent>, i: int)
    requires
        crypto.wf(),
        call_ensures(open_payloads, (&crypto, events), r),
        0 <= i < events@.len(),
    ensures
        r@.len() == events@.len(),
        r@[i]@ == (SyncEventView { payload: r@[i]@.payload, ..events@[i]@ }),
        events@[i]@.payload is None ==> r@[i]@.payload is None,
        events@[i]@.payload matches Some(p) ==> (crypto::decrypted(crypto@, p) is Ok ==> r@[i]@.payload == Some(
            crypto::decrypted(crypto@, p)->Ok_0,
        )),
        events@[i]@.payload matches Some(p) ==> (crypto::decrypted(crypto@, p) is Err ==> r@[i]@.payload == Some(p)),
{
    let before = tables::sync_views(events@);
    let after = tables::sync_views(r@);
    assert(after.len() == before.len());
    assert(after[i] == opened(crypto@, before[i]));
    assert(before[i] == events@[i]@);
    assert(after[i] == r@[i]@);
}

/// Sealing the payload of an event touches nothing but the payload, and the
/// sealed payload opens to what it was. An event without a payload stays as it
/// is, and so does one whose payload is too long to be sealed.
pub proof fn sealing_touches_only_the_payload(crypto: CryptoState, e: SyncEvent, nonce: Seq<u8>, r: SyncEventView)
    requires
        crypto.wf(),
        nonce.len() == 24,
        r == sealed(crypto@, e@, nonce),
        opens_to(crypto@, r, e@),
    ensures
        r == (SyncEventView { payload: r.payload, ..e@ }),
        e@.payload is None ==> r.payload is None,
        e@.payload matches Some(data) ==> r.payload is Some,
        e@.payload matches Some(data) ==> (data.len() <= 274_877_906_816 ==> crypto::decrypted(crypto@, r.payload->0)
            == Ok::<Seq<u8>, CryptoError>(data)),
        e@.payload matches Some(data) ==> (data.len() > 274_877_906_816 ==> r.payload == Some(data)),
{
}

/// Events are sealed exactly where there is a nonce in the place of every
/// payload. Each event then keeps its place and everything but its payload, which
/// opens to what it was.
pub proof fn sealed_events_open_again(
    crypto: CryptoState,
    events: Vec<SyncEvent>,
    nonces: Vec<Option<Vec<u8>>>,
    r: Option<Vec<SyncEvent>>,
)
    requires
        crypto.wf(),
        forall|i: int| 0 <= i < nonces@.len() ==> (#[trigger] nonces@[i] matches Some(n) ==> n@.len() == 24),
        call_ensures(seal_payloads_with, (&crypto, events, &nonces), r),
    ensures
        r is Some <==> (forall|i: int|
            0 <= i < events@.len() && (#[trigger] events@[i])@.payload is Some ==> i < nonces@.len() && nonces@[i] is Some),
        r matches Some(out) ==> out@.len() == events@.len(),
        r matches Some(out) ==> forall|i: int|
            0 <= i < events@.len() ==> {
                &&& (#[trigger] out@[i])@ == (SyncEventView { payload: out@[i]@.payload, ..events@[i]@ })
                &&& out@[i]@.payload is Some <==> events@[i]@.payload is Some
                &&& events@[i]@.payload matches Some(data) ==> (data.len() <= 274_877_906_816 ==> crypto::decrypted(
                    crypto@,
                    out@[i]@.payload->0,
                ) == Ok::<Seq<u8>, CryptoError>(data))
                &&& events@[i]@.payload matches Some(data) ==> (data.len() > 274_877_906_816 ==> out@[i]@.payload == Some(
                    data,
                ))
            },
{
    let all = tables::sync_views(events@);
    let under = nonce_views(nonces@);
    let suffice = forall|i: int|
        0 <= i < events@.len() && (#[trigger] events@[i])@.payload is Some ==> i < nonces@.len() && nonces@[i] is Some;
    assert(forall|i: int| 0 <= i < events@.len() ==> #[trigger] all[i] == events@[i]@);
    assert(forall|i: int| 0 <= i < nonces@.len() ==> #[trigger] under[i] == crypto::opt_seq(nonces@[i]));
    if suffice {
        assert forall|i: int| 0 <= i < all.len() && (#[trigger] all[i]).payload is Some implies nonce_for(under, i) is Some by {
            assert(events@[i]@.payload is Some);
        }
    }
    if nonces_suffice(all, under) {
        assert forall|i: int| 0 <= i < events@.len() && (#[trigger] events@[i])@.payload is Some implies i
            < nonces@.len() && nonces@[i] is Some by {
            assert(all[i].payload is Some);
        }
        let out = r->0;
        let views = tables::sync_views(out@);
        assert(views.len() == all.len());
        assert forall|i: int| 0 <= i < events@.len() implies {
            &&& (#[trigger] out@[i])@ == (SyncEventView { payload: out@[i]@.payload, ..events@[i]@ })
            &&& out@[i]@.payload is Some <==> events@[i]@.payload is Some
            &&& events@[i]@.payload matches Some(data) ==> (data.len() <= 274_877_906_816 ==> crypto::decrypted(
                crypto@,
                out@[i]@.payload->0,
            ) == Ok::<Seq<u8>, CryptoError>(data))
            &&& events@[i]@.payload matches Some(data) ==> (data.len() > 274_877_906_816 ==> out@[i]@.payload == Some(data))
        } by {
            assert(views[i] == out@[i]@);
            assert(seals(crypto@, all[i], views[i]));
        }
    }
}

/// What is taken over from a peer is what it handed over, event for event, with
/// nothing changed but the payloads, which open to those handed over. Where the
/// clock of the machine or its random bytes fail, the store stays as it was.
pub proof fn taking_over_seals_payloads(
    before: DbView,
    key: Seq<u8>,
    plain: Seq<SyncEventView>,
    after: DbView,
    r: Result<(), DbError>,
)
    requires
        takes_over(before, key, plain, after, r),
    ensures
        r == Err::<(), DbError>(DbError::ClockBeforeEpoch) || r == Err::<(), DbError>(DbError::NoRandomness) ==> after
            == before,
        r == Err::<(), DbError>(DbError::NoRandomness) ==> exists|i: int|
            0 <= i < plain.len() && (#[trigger] plain[i]).payload is Some,
        !(r == Err::<(), DbError>(DbError::ClockBeforeEpoch) || r == Err::<(), DbError>(DbError::NoRandomness)) ==> exists|
            told: Seq<SyncEventView>,
            now: int,
        |
            {
                &&& (after, r) == #[trigger] before.apply_sync_events(told, now)
                &&& told.len() == plain.len()
                &&& forall|i: int|
                    0 <= i < plain.len() ==> {
                        &&& (#[trigger] told[i]) == (SyncEventView { payload: told[i].payload, ..plain[i] })
                        &&& told[i].payload is Some <==> plain[i].payload is Some
                        &&& plain[i].payload matches Some(data) ==> (data.len() <= 274_877_906_816 ==> crypto::decrypted(
                            key,
                            told[i].payload->0,
                        ) == Ok::<Seq<u8>, CryptoError>(data))
                    }
            },
{
    if r == Err::<(), DbError>(DbError::ClockBeforeEpoch) || r == Err::<(), DbError>(DbError::NoRandomness) {
    } else {
        assert(taken_over(before, key, plain, after, r));
        let (told, now) = choose|told: Seq<SyncEventView>, now: int|
            all_seal(key, plain, told) && (after, r) == #[trigger] before.apply_sync_events(told, now);
        assert((after, r) == before.apply_sync_events(told, now));
        assert forall|i: int| 0 <= i < plain.len() implies {
            &&& (#[trigger] told[i]) == (SyncEventView { payload: told[i].payload, ..plain[i] })
            &&& told[i].payload is Some <==> plain[i].payload is Some
            &&& plain[i].payload matches Some(data) ==> (data.len() <= 274_877_906_816 ==> crypto::decrypted(
                key,
                told[i].payload->0,
            ) == Ok::<Seq<u8>, CryptoError>(data))
        } by {
            assert(seals(key, plain[i], told[i]));
        }
    }
}

/// Events are pushed fifty at a time and in their order: the event in a place is
/// in the batch of that number divided by fifty, at what is left over. Only the
/// last batch may be smaller, and none is empty.
pub proof fn batches_hold_fifty_events_each(events: Vec<SyncEvent>, r: Vec<Vec<SyncEvent>>)
    requires
        call_ensures(batches, (&events,), r),
    ensures
        forall|i: int, k: int|
            0 <= i < r@.len() && 0 <= k < r@[i]@.len() ==> 50 * i + k < events@.len() && (#[trigger] r@[i]@[k])@
                == events@[50 * i + k]@,
        forall|i: int| 0 <= i < r@.len() ==> 1 <= (#[trigger] r@[i])@.len() <= 50,
        forall|i: int| 0 <= i < r@.len() - 1 ==> (#[trigger] r@[i])@.len() == 50,
        events@.len() <= 50 * r@.len(),
        r@.len() > 0 ==> 50 * (r@.len() - 1) + r@.last()@.len() == events@.len(),
{
    let all = tables::sync_views(events@);
    assert forall|i: int| 0 <= i < r@.len() implies (#[trigger] r@[i])@.len() == (if all.len() - 50 * i < 50 {
        all.len() - 50 * i
    } else {
        50
    }) by {
        let b = tables::sync_views(r@[i]@);
        assert(b == model::up_to(all.skip(i * 50), 50));
        assert(b.len() == r@[i]@.len());
    }
    assert forall|i: int, k: int| 0 <= i < r@.len() && 0 <= k < r@[i]@.len() implies 50 * i + k < events@.len()
        && (#[trigger] r@[i]@[k])@ == events@[50 * i + k]@ by {
        let b = tables::sync_views(r@[i]@);
        assert(b == model::up_to(all.skip(i * 50), 50));
        assert(b[k] == r@[i]@[k]@);
        assert(b[k] == all[50 * i + k]);
    }
}

/// An event comes with an attachment exactly where it says so. The attachment
/// is named by the stem of the path it was noted under: a plain name is its own
/// stem, and where no path was noted the uuid of the clip is the name.
pub proof fn attachments_are_named_by_their_path(e: SyncEvent, r: Option<String>)
    requires
        call_ensures(attachment_of, (&e,), r),
    ensures
        r is Some <==> e.has_attachment == Some(true),
        r is Some && e.attachment_path is None ==> r->0@ == e.clip_uuid@,
        r is Some && e.attachment_path is Some && e.attachment_path->0@.len() == 0 ==> r->0@ == e.clip_uuid@,
        r is Some && e.attachment_path is Some && e.attachment_path->0@.len() > 0 && is_plain_name(
            e.attachment_path->0@,
        ) ==> r->0@ == e.attachment_path->0@,
        r is Some && e.attachment_path is Some ==> forall|name: Seq<char>|
            #[trigger] leads_to(e.attachment_path->0@, name) ==> r->0@ == name,
{
}

/// An attachment is named by the stem of its path where that has any
/// characters, and by the uuid of its clip otherwise.
pub proof fn stems_come_before_uuids(stem: &str, clip_uuid: &str, r: String)
    requires
        call_ensures(attachment_from, (stem, clip_uuid), r),
    ensures
        r@ == stem@ || r@ == clip_uuid@,
        stem@.len() > 0 ==> r@ == stem@,
        stem@.len() == 0 ==> r@ == clip_uuid@,
{
}

/// An attachment is fetched exactly where neither of its files is there.
pub proof fn attachments_at_hand_are_not_fetched(plain_exists: bool, legacy_exists: bool, r: bool)
    requires
        call_ensures(must_fetch, (plain_exists, legacy_exists), r),
    ensures
        plain_exists ==> !r,
        legacy_exists ==> !r,
        !plain_exists && !legacy_exists ==> r,
{
}

} // verus!
