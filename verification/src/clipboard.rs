//! What is kept of the clipboard.
use crate::crypto;
use crate::crypto::{fresh_nonce, CryptoError, CryptoState};
use crate::db;
use crate::db::changes::two_readings;
use crate::db::Database;
use crate::image_util;
use crate::image_util::thumbnail;
use crate::model;
use crate::model::{DbError, DbView};
use crate::primitives;
use crate::primitives::{b64_encode, fresh_uuid, sha256};
use crate::tables;
use crate::tables::{bytes_of, copy_bytes};
use crate::text;
use crate::text::{decimal_text, from_utf8_lossy};
use vstd::prelude::*;
use vstd::slice::slice_subrange;
use vstd::utf8::*;

verus! {

broadcast use vstd::seq_lib::group_seq_properties;

/// Longer text is kept as an attachment: 500 KB.
pub const TEXT_ATTACHMENT_THRESHOLD: usize = 512_000;

/// Of longer text so many bytes are shown.
pub const PREVIEW: usize = 512;

/// What the clipboard holds.
#[derive(Debug, Clone, Copy, PartialEq, Eq, Structural)]
pub enum ContentKind {
    Text,
    Image,
}

/// The type of a clip as it is stored.
pub open spec fn stored_type(kind: ContentKind) -> Seq<char> {
    match kind {
        ContentKind::Text => "text"@,
        ContentKind::Image => "image"@,
    }
}

/// The type of a clip as it is stored.
pub fn content_type(kind: ContentKind) -> (r: &'static str)
    ensures
        r@ == stored_type(kind),
{
    match kind {
        ContentKind::Text => "text",
        ContentKind::Image => "image",
    }
}

/// The text on the clipboard as a payload; no text, or an empty one, is none.
pub fn captured_text(text: Option<&str>) -> (r: Option<Vec<u8>>)
    ensures
        match text {
            Some(s) => if s@.len() == 0 {
                r is None
            } else {
                r matches Some(v) && v@ == encode_utf8(s@)
            },
            None => r is None,
        },
{
    match text {
        Some(s) => if text::chars_of(s).len() == 0 {
            None
        } else {
            Some(bytes_of(s.as_bytes()))
        },
        None => None,
    }
}

/// Pictures are kept as attachments, and long text.
pub open spec fn goes_to_attachment(kind: ContentKind, length: int) -> bool {
    kind == ContentKind::Image || length > TEXT_ATTACHMENT_THRESHOLD
}

/// Whether a payload is kept as an attachment.
pub fn uses_attachment(kind: ContentKind, length: usize) -> (r: bool)
    ensures
        r == goes_to_attachment(kind, length as int),
{
    match kind {
        ContentKind::Image => true,
        ContentKind::Text => length > TEXT_ATTACHMENT_THRESHOLD,
    }
}

/// A thumbnail as far as it can be written in base64: one that fills more than
/// half of the memory counts as none.
pub open spec fn fitting(thumbnail: Seq<u8>) -> Seq<u8> {
    if thumbnail.len() <= usize::MAX / 2 {
        thumbnail
    } else {
        Seq::empty()
    }
}

/// What is shown of an attachment: of a picture its thumbnail, in base64; of
/// long text its length and its beginning.
pub open spec fn preview_text(kind: ContentKind, payload: Seq<u8>, thumbnail: Seq<u8>) -> Seq<char> {
    match kind {
        ContentKind::Image => primitives::b64_text(fitting(thumbnail)),
        ContentKind::Text => "[Large file: "@ + text::decimal(payload.len()) + " bytes]\n"@ + text::utf8_lossy(
            model::up_to(payload, PREVIEW as int),
        ),
    }
}

/// What is shown of an attachment, given the thumbnail of a picture.
pub fn preview(kind: ContentKind, payload: &Vec<u8>, thumbnail: &Vec<u8>) -> (r: Vec<u8>)
    ensures
        r@ == encode_utf8(preview_text(kind, payload@, thumbnail@)),
{
    match kind {
        ContentKind::Image => if thumbnail.len() <= usize::MAX / 2 {
            bytes_of(b64_encode(thumbnail.as_slice()).as_str().as_bytes())
        } else {
            let none: Vec<u8> = Vec::new();
            bytes_of(b64_encode(none.as_slice()).as_str().as_bytes())
        },
        ContentKind::Text => {
            let shown: usize = if payload.len() < PREVIEW {
                payload.len()
            } else {
                PREVIEW
            };
            let mut s = "[Large file: ".to_owned();
            s.append(decimal_text(payload.len() as u128).as_str());
            s.append(" bytes]\n");
            s.append(from_utf8_lossy(slice_subrange(payload.as_slice(), 0, shown)).as_str());
            proof {
                assert(payload@.subrange(0, shown as int) =~= model::up_to(payload@, PREVIEW as int));
            }
            bytes_of(s.as_str().as_bytes())
        },
    }
}

/// Whether this can be the thumbnail that goes with a payload: that of a
/// picture is the thumbnail of its file, and text needs none.
pub open spec fn illustrates(kind: ContentKind, payload: Seq<u8>, thumbnail: Seq<u8>) -> bool {
    kind == ContentKind::Image ==> image_util::thumbnail_of(payload, thumbnail)
}

/// The thumbnail that goes with a payload.
fn illustration(kind: ContentKind, payload: &Vec<u8>) -> (r: Vec<u8>)
    ensures
        illustrates(kind, payload@, r@),
{
    match kind {
        ContentKind::Image => thumbnail(payload.as_slice()),
        ContentKind::Text => Vec::new(),
    }
}

/// The digest of what the newest clip holds; nothing where there is no clip, or
/// it cannot be opened.
pub open spec fn latest_digest(db: DbView, key: Seq<u8>) -> Option<Seq<u8>> {
    let live = model::live_clips(db.clips);
    if live.len() == 0 {
        None
    } else {
        match crypto::decrypted(key, live.last().encrypted_payload) {
            Ok(data) => Some(primitives::sha256_digest(data)),
            Err(_) => None,
        }
    }
}

/// The digest of what the newest clip holds.
pub fn latest_hash(db: &Database, crypto: &CryptoState) -> (r: Option<Vec<u8>>)
    requires
        crypto.wf(),
    ensures
        tables::opt_bytes(r) == latest_digest(db@, crypto@),
{
    match db.get_latest_hash() {
        Some(payload) => match crypto.decrypt(payload.as_slice()) {
            Ok(data) => Some(sha256(data.as_slice())),
            Err(_) => None,
        },
        None => None,
    }
}

fn same_digest(last: &Option<Vec<u8>>, digest: &Vec<u8>) -> (r: bool)
    ensures
        r == (tables::opt_bytes(*last) == Some(digest@)),
{
    match last {
        Some(v) => text::same_bytes(v.as_slice(), digest.as_slice()),
        None => false,
    }
}

/// What has been seen of the clipboard: the digest of what it held last.
pub struct Watcher {
    last_hash: Option<Vec<u8>>,
}

impl View for Watcher {
    type V = Option<Seq<u8>>;

    closed spec fn view(&self) -> Option<Seq<u8>> {
        tables::opt_bytes(self.last_hash)
    }
}

/// What a watcher has seen after a look at the clipboard, and whether that was
/// something else than before.
pub open spec fn noted(last: Option<Seq<u8>>, payload: Seq<u8>) -> (Option<Seq<u8>>, bool) {
    (Some(primitives::sha256_digest(payload)), last != Some(primitives::sha256_digest(payload)))
}

/// What a watcher has seen after a look at the clipboard, whether the payload is
/// to be kept, and whether the wish to ignore an update is used up.
pub open spec fn taken_in(last: Option<Seq<u8>>, payload: Seq<u8>, ignore: bool) -> (Option<Seq<u8>>, (bool, bool)) {
    let (after, news) = noted(last, payload);
    (after, (news && !ignore, news && ignore))
}

impl Watcher {
    /// A watcher that has seen the newest clip.
    pub fn new(db: &Database, crypto: &CryptoState) -> (r: Watcher)
        requires
            crypto.wf(),
        ensures
            r@ == latest_digest(db@, crypto@),
    {
        Watcher { last_hash: latest_hash(db, crypto) }
    }

    /// Takes note of what the clipboard holds. Says whether it is something
    /// else than before.
    pub fn note(&mut self, payload: &[u8]) -> (r: bool)
        ensures
            r == (old(self)@ != Some(primitives::sha256_digest(payload@))),
            final(self)@ == Some(primitives::sha256_digest(payload@)),
            (final(self)@, r) == noted(old(self)@, payload@),
    {
        let digest = sha256(payload);
        if same_digest(&self.last_hash, &digest) {
            false
        } else {
            self.last_hash = Some(digest);
            true
        }
    }

    /// Takes note of what the clipboard holds, while the next update is to be
    /// ignored or not. Says whether the payload is to be kept, and whether the
    /// wish to ignore an update is used up: what is no news is neither kept
    /// nor does it count as an update.
    pub fn take_in(&mut self, payload: &[u8], ignore: bool) -> (r: (bool, bool))
        ensures
            ({
                let news = old(self)@ != Some(primitives::sha256_digest(payload@));
                r == (news && !ignore, news && ignore)
            }),
            final(self)@ == Some(primitives::sha256_digest(payload@)),
            (final(self)@, r) == taken_in(old(self)@, payload@, ignore),
    {
        let news = self.note(payload);
        (news && !ignore, news && ignore)
    }
}

// ---------------------------------------------------------------------------
// Keeping clips
// ---------------------------------------------------------------------------

/// Why a clip was not kept.
#[derive(Debug, Clone, Copy, PartialEq, Eq, Structural)]
pub enum StoreError {
    Crypto(CryptoError),
    Db(DbError),
}

/// The result of the insertion behind a result.
pub open spec fn insertion(r: Result<i64, StoreError>) -> Result<int, DbError> {
    match r {
        Ok(n) => Ok(n as int),
        Err(StoreError::Db(e)) => Err(e),
        Err(StoreError::Crypto(_)) => Err(DbError::Full),
    }
}

/// A clip sealed under a nonce and inserted.
pub open spec fn kept_with(
    db: DbView,
    key: Seq<u8>,
    content_type: Seq<char>,
    data: Seq<u8>,
    limit: int,
    attachment: Option<Seq<char>>,
    nonce: Seq<u8>,
    uuid: Seq<char>,
    timestamp: int,
    physical: int,
) -> (DbView, Result<int, DbError>) {
    let sealed = crypto::sealed_with(key, nonce, data);
    db.insert_clip(
        content_type,
        sealed,
        limit,
        attachment is Some,
        attachment,
        db::payload_hash(sealed),
        uuid,
        timestamp,
        physical,
    )
}

/// Whether a store is what is left after a clip was kept, under some nonce and
/// uuid and at some time.
pub open spec fn kept(
    before: DbView,
    key: Seq<u8>,
    content_type: Seq<char>,
    data: Seq<u8>,
    limit: int,
    attachment: Option<Seq<char>>,
    after: DbView,
    r: Result<int, DbError>,
) -> bool {
    exists|nonce: Seq<u8>, uuid: Seq<char>, timestamp: int, physical: int|
        nonce.len() == crypto::NONCE_LEN && primitives::uuid_shaped(uuid) && (after, r) == #[trigger] kept_with(
            before,
            key,
            content_type,
            data,
            limit,
            attachment,
            nonce,
            uuid,
            timestamp,
            physical,
        ) && crypto::decrypted(key, crypto::sealed_with(key, nonce, data)) == Ok::<Seq<u8>, CryptoError>(data)
}

/// Whether data sealed under a nonce open again, unless they are too long to be
/// sealed.
pub open spec fn opens(key: Seq<u8>, nonce: Seq<u8>, data: Seq<u8>) -> bool {
    data.len() <= crypto::MAX_PLAIN ==> crypto::decrypted(key, crypto::sealed_with(key, nonce, data)) == Ok::<
        Seq<u8>,
        CryptoError,
    >(data)
}

/// Whether a store is what is left, and this is the answer, after a clip was to
/// be kept under a nonce and a uuid, at readings of the machine's clock. Nothing
/// changes where the data are too long to be sealed.
pub open spec fn keeps_with(
    before: DbView,
    key: Seq<u8>,
    content_type: Seq<char>,
    data: Seq<u8>,
    limit: int,
    attachment: Option<Seq<char>>,
    nonce: Seq<u8>,
    uuid: Seq<char>,
    timestamp: int,
    physical: int,
    after: DbView,
    r: Result<i64, StoreError>,
) -> bool {
    if data.len() > crypto::MAX_PLAIN {
        after == before && r == Err::<i64, StoreError>(StoreError::Crypto(CryptoError::Cipher))
    } else {
        let (a, q) = kept_with(
            before,
            key,
            content_type,
            data,
            limit,
            attachment,
            nonce,
            uuid,
            timestamp,
            physical,
        );
        after == a && !(r matches Err(StoreError::Crypto(_))) && insertion(r) == q
    }
}

/// Keeps a clip under a given nonce and uuid, at given readings of the
/// machine's clock.
pub fn keep_clip_with(
    db: &mut Database,
    crypto: &CryptoState,
    content_type: &str,
    data: &[u8],
    limit: i64,
    attachment: Option<String>,
    nonce: &[u8],
    uuid: String,
    timestamp: i64,
    physical: i64,
) -> (r: Result<i64, StoreError>)
    requires
        old(db).wf(),
        old(db)@.clock_left(),
        crypto.wf(),
        nonce@.len() == crypto::NONCE_LEN,
    ensures
        final(db).wf(),
        keeps_with(
            old(db)@,
            crypto@,
            content_type@,
            data@,
            limit as int,
            tables::opt_text(attachment),
            nonce@,
            uuid@,
            timestamp as int,
            physical as int,
            final(db)@,
            r,
        ),
        opens(crypto@, nonce@, data@),
{
    match crypto.encrypt_with(nonce, data) {
        Ok(sealed) => {
            let has_attachment = attachment.is_some();
            match db.insert_clip_at(
                content_type,
                sealed.as_slice(),
                limit,
                has_attachment,
                attachment,
                uuid,
                timestamp,
                physical,
            ) {
                Ok(n) => Ok(n),
                Err(e) => Err(StoreError::Db(e)),
            }
        },
        Err(e) => Err(StoreError::Crypto(e)),
    }
}

/// Whether a store is what is left, and this is the answer, after a clip was
/// to be kept. Nothing changes where the machine gives no random bytes, its
/// clock is set to before 1970, or the data are too long to be sealed.
pub open spec fn keeps(
    before: DbView,
    key: Seq<u8>,
    content_type: Seq<char>,
    data: Seq<u8>,
    limit: int,
    attachment: Option<Seq<char>>,
    after: DbView,
    r: Result<i64, StoreError>,
) -> bool {
    match r {
        Err(StoreError::Crypto(e)) => after == before && (e == CryptoError::NoRandomness || e == CryptoError::Cipher
            && data.len() > crypto::MAX_PLAIN),
        Err(StoreError::Db(DbError::ClockBeforeEpoch)) => after == before,
        Err(StoreError::Db(DbError::NoRandomness)) => after == before,
        _ => kept(before, key, content_type, data, limit, attachment, after, insertion(r)),
    }
}

/// What is drawn for a clip: a nonce, a uuid and two readings of the machine's
/// clock. Nothing is drawn where the machine gives no random bytes, or its clock
/// is set to before 1970.
fn draw() -> (r: Result<(Vec<u8>, String, i64, i64), StoreError>)
    ensures
        match r {
            Ok(d) => d.0@.len() == crypto::NONCE_LEN && primitives::uuid_shaped(d.1@),
            Err(e) => e == StoreError::Crypto(CryptoError::NoRandomness) || e == StoreError::Db(DbError::NoRandomness) || e
                == StoreError::Db(DbError::ClockBeforeEpoch),
        },
{
    let nonce = match fresh_nonce() {
        Some(nonce) => nonce,
        None => return Err(StoreError::Crypto(CryptoError::NoRandomness)),
    };
    let uuid = match fresh_uuid() {
        Some(uuid) => uuid,
        None => return Err(StoreError::Db(DbError::NoRandomness)),
    };
    match two_readings() {
        Some((timestamp, physical)) => Ok((nonce, uuid, timestamp, physical)),
        None => Err(StoreError::Db(DbError::ClockBeforeEpoch)),
    }
}

/// What was kept under a nonce and a uuid was kept.
proof fn kept_under_some_nonce(
    before: DbView,
    key: Seq<u8>,
    content_type: Seq<char>,
    data: Seq<u8>,
    limit: int,
    attachment: Option<Seq<char>>,
    nonce: Seq<u8>,
    uuid: Seq<char>,
    timestamp: int,
    physical: int,
    after: DbView,
    r: Result<i64, StoreError>,
)
    requires
        nonce.len() == crypto::NONCE_LEN,
        primitives::uuid_shaped(uuid),
        keeps_with(
            before,
            key,
            content_type,
            data,
            limit,
            attachment,
            nonce,
            uuid,
            timestamp,
            physical,
            after,
            r,
        ),
        opens(key, nonce, data),
    ensures
        keeps(before, key, content_type, data, limit, attachment, after, r),
        r is Ok || (r matches Err(StoreError::Db(_))) ==> kept(
            before,
            key,
            content_type,
            data,
            limit,
            attachment,
            after,
            insertion(r),
        ),
{
    if data.len() <= crypto::MAX_PLAIN {
        let outcome = kept_with(
            before,
            key,
            content_type,
            data,
            limit,
            attachment,
            nonce,
            uuid,
            timestamp,
            physical,
        );
        assert((after, insertion(r)) == outcome);
        assert(kept(before, key, content_type, data, limit, attachment, after, insertion(r)));
    }
}

/// What goes into the history of a captured payload: the payload itself, or
/// what is shown of it where it is kept as an attachment.
pub open spec fn stored_form(kind: ContentKind, payload: Seq<u8>, thumbnail: Seq<u8>) -> Seq<u8> {
    if goes_to_attachment(kind, payload.len() as int) {
        encode_utf8(preview_text(kind, payload, thumbnail))
    } else {
        payload
    }
}

/// What goes into the history of a captured payload, given the thumbnail of a
/// picture.
pub fn form_to_store(kind: ContentKind, payload: &Vec<u8>, thumbnail: &Vec<u8>) -> (r: Vec<u8>)
    ensures
        r@ == stored_form(kind, payload@, thumbnail@),
{
    if uses_attachment(kind, payload.len()) {
        preview(kind, payload, thumbnail)
    } else {
        copy_bytes(payload)
    }
}

/// Whether a store is what is left, and this is the answer, after a captured
/// payload was to be kept, given the thumbnail of a picture, under a nonce and a
/// uuid, at readings of the machine's clock.
pub open spec fn keeps_captured_with(
    before: DbView,
    key: Seq<u8>,
    kind: ContentKind,
    payload: Seq<u8>,
    thumbnail: Seq<u8>,
    limit: int,
    attachment: Option<Seq<char>>,
    nonce: Seq<u8>,
    uuid: Seq<char>,
    timestamp: int,
    physical: int,
    after: DbView,
    r: Result<i64, StoreError>,
) -> bool {
    let data = stored_form(kind, payload, thumbnail);
    &&& keeps_with(
        before,
        key,
        stored_type(kind),
        data,
        limit,
        attachment,
        nonce,
        uuid,
        timestamp,
        physical,
        after,
        r,
    )
    &&& opens(key, nonce, data)
}

/// Keeps what was captured from the clipboard, given the thumbnail of a picture,
/// under a given nonce and uuid, at given readings of the machine's clock.
pub fn keep_captured_with(
    db: &mut Database,
    crypto: &CryptoState,
    kind: ContentKind,
    payload: &Vec<u8>,
    thumbnail: &Vec<u8>,
    limit: i64,
    attachment: Option<String>,
    nonce: &[u8],
    uuid: String,
    timestamp: i64,
    physical: i64,
) -> (r: Result<i64, StoreError>)
    requires
        old(db).wf(),
        old(db)@.clock_left(),
        crypto.wf(),
        attachment is Some == goes_to_attachment(kind, payload@.len() as int),
        nonce@.len() == crypto::NONCE_LEN,
    ensures
        final(db).wf(),
        keeps_with(
            old(db)@,
            crypto@,
            stored_type(kind),
            stored_form(kind, payload@, thumbnail@),
            limit as int,
            tables::opt_text(attachment),
            nonce@,
            uuid@,
            timestamp as int,
            physical as int,
            final(db)@,
            r,
        ),
        opens(crypto@, nonce@, stored_form(kind, payload@, thumbnail@)),
        keeps_captured_with(
            old(db)@,
            crypto@,
            kind,
            payload@,
            thumbnail@,
            limit as int,
            tables::opt_text(attachment),
            nonce@,
            uuid@,
            timestamp as int,
            physical as int,
            final(db)@,
            r,
        ),
{
    let data = form_to_store(kind, payload, thumbnail);
    keep_clip_with(
        db,
        crypto,
        content_type(kind),
        data.as_slice(),
        limit,
        attachment,
        nonce,
        uuid,
        timestamp,
        physical,
    )
}

/// Whether a store is what is left, and this is the answer, after a captured
/// payload was to be kept.
pub open spec fn keeps_captured(
    before: DbView,
    key: Seq<u8>,
    kind: ContentKind,
    payload: Seq<u8>,
    limit: int,
    attachment: Option<Seq<char>>,
    after: DbView,
    r: Result<i64, StoreError>,
) -> bool {
    exists|thumbnail: Seq<u8>|
        illustrates(kind, payload, thumbnail) && keeps(
            before,
            key,
            stored_type(kind),
            #[trigger] stored_form(kind, payload, thumbnail),
            limit,
            attachment,
            after,
            r,
        )
}

/// Keeps what was captured from the clipboard. An attachment is named if and
/// only if the payload is kept as one.
pub fn keep_captured(
    db: &mut Database,
    crypto: &CryptoState,
    kind: ContentKind,
    payload: &Vec<u8>,
    limit: i64,
    attachment: Option<String>,
) -> (r: Result<i64, StoreError>)
    requires
        old(db).wf(),
        old(db)@.clock_left(),
        crypto.wf(),
        attachment is Some == goes_to_attachment(kind, payload@.len() as int),
    ensures
        final(db).wf(),
        keeps_captured(
            old(db)@,
            crypto@,
            kind,
            payload@,
            limit as int,
            tables::opt_text(attachment),
            final(db)@,
            r,
        ),
{
    let ghost att = tables::opt_text(attachment);
    let thumbnail = illustration(kind, payload);
    let ghost data = stored_form(kind, payload@, thumbnail@);
    match draw() {
        Ok((nonce, uuid, timestamp, physical)) => {
            let ghost (n, u) = (nonce@, uuid@);
            let r = keep_captured_with(
                db,
                crypto,
                kind,
                payload,
                &thumbnail,
                limit,
                attachment,
                nonce.as_slice(),
                uuid,
                timestamp,
                physical,
            );
            proof {
                kept_under_some_nonce(
                    old(db)@,
                    crypto@,
                    stored_type(kind),
                    data,
                    limit as int,
                    att,
                    n,
                    u,
                    timestamp as int,
                    physical as int,
                    db@,
                    r,
                );
            }
            r
        },
        Err(e) => {
            assert(keeps(old(db)@, crypto@, stored_type(kind), data, limit as int, att, db@, Err::<i64, StoreError>(e)));
            Err(e)
        },
    }
}

/// Whether data are what the newest clip holds, by their digests.
pub open spec fn repeats_latest(db: DbView, key: Seq<u8>, data: Seq<u8>) -> bool {
    latest_digest(db, key) == Some(primitives::sha256_digest(data))
}

/// Whether a text is what the newest clip holds.
fn is_repeated(db: &Database, crypto: &CryptoState, text: &str) -> (r: bool)
    requires
        crypto.wf(),
    ensures
        r == repeats_latest(db@, crypto@, encode_utf8(text@)),
{
    let digest = sha256(text.as_bytes());
    let latest = latest_hash(db, crypto);
    same_digest(&latest, &digest)
}

/// Whether a store is what is left, and this is the answer, after text was
/// handed over by the user interface, under a nonce and a uuid, at readings of the
/// machine's clock.
pub open spec fn keeps_text_with(
    before: DbView,
    key: Seq<u8>,
    text: Seq<char>,
    limit: int,
    nonce: Seq<u8>,
    uuid: Seq<char>,
    timestamp: int,
    physical: int,
    after: DbView,
    r: Option<Result<i64, StoreError>>,
) -> bool {
    let data = encode_utf8(text);
    match r {
        Some(q) => {
            &&& !repeats_latest(before, key, data)
            &&& keeps_with(before, key, "text"@, data, limit, None, nonce, uuid, timestamp, physical, after, q)
            &&& opens(key, nonce, data)
        },
        None => repeats_latest(before, key, data) && after == before,
    }
}

/// Keeps text that was handed over by the user interface, unless it is what the
/// newest clip holds, under a given nonce and uuid, at given readings of the
/// machine's clock. The number of the new event comes back, or nothing where
/// the text was not kept.
pub fn add_mobile_clip_with(
    db: &mut Database,
    crypto: &CryptoState,
    text: &str,
    limit: i64,
    nonce: &[u8],
    uuid: String,
    timestamp: i64,
    physical: i64,
) -> (r: Option<Result<i64, StoreError>>)
    requires
        old(db).wf(),
        old(db)@.clock_left(),
        crypto.wf(),
        nonce@.len() == crypto::NONCE_LEN,
    ensures
        final(db).wf(),
        r is None == repeats_latest(old(db)@, crypto@, encode_utf8(text@)),
        r is None ==> final(db)@ == old(db)@,
        r is Some ==> keeps_with(
            old(db)@,
            crypto@,
            "text"@,
            encode_utf8(text@),
            limit as int,
            None,
            nonce@,
            uuid@,
            timestamp as int,
            physical as int,
            final(db)@,
            r->0,
        ) && opens(crypto@, nonce@, encode_utf8(text@)),
        keeps_text_with(
            old(db)@,
            crypto@,
            text@,
            limit as int,
            nonce@,
            uuid@,
            timestamp as int,
            physical as int,
            final(db)@,
            r,
        ),
{
    if is_repeated(db, crypto, text) {
        None
    } else {
        Some(keep_clip_with(db, crypto, "text", text.as_bytes(), limit, None, nonce, uuid, timestamp, physical))
    }
}

/// Whether a store is what is left, and this is the answer, after text was
/// handed over by the user interface.
pub open spec fn keeps_text(
    before: DbView,
    key: Seq<u8>,
    text: Seq<char>,
    limit: int,
    after: DbView,
    r: Result<bool, StoreError>,
) -> bool {
    let data = encode_utf8(text);
    match r {
        Ok(false) => repeats_latest(before, key, data) && after == before,
        Ok(true) => !repeats_latest(before, key, data) && exists|n: i64| #[trigger]
            keeps(before, key, "text"@, data, limit, None, after, Ok::<i64, StoreError>(n)),
        Err(e) => !repeats_latest(before, key, data) && keeps(
            before,
            key,
            "text"@,
            data,
            limit,
            None,
            after,
            Err::<i64, StoreError>(e),
        ),
    }
}

/// Keeps text that was handed over by the user interface, unless it is what the
/// newest clip holds. Says whether it was kept.
pub fn add_mobile_clip(db: &mut Database, crypto: &CryptoState, text: &str, limit: i64) -> (r: Result<bool, StoreError>)
    requires
        old(db).wf(),
        old(db)@.clock_left(),
        crypto.wf(),
    ensures
        final(db).wf(),
        repeats_latest(old(db)@, crypto@, encode_utf8(text@)) ==> r == Ok::<bool, StoreError>(false) && final(db)@
            == old(db)@,
        !repeats_latest(old(db)@, crypto@, encode_utf8(text@)) ==> match r {
            Ok(b) => b && exists|n: int| #[trigger]
                kept(
                    old(db)@,
                    crypto@,
                    "text"@,
                    encode_utf8(text@),
                    limit as int,
                    None,
                    final(db)@,
                    Ok::<int, DbError>(n),
                ),
            Err(StoreError::Crypto(e)) => final(db)@ == old(db)@ && (e == CryptoError::NoRandomness || e
                == CryptoError::Cipher && encode_utf8(text@).len() > crypto::MAX_PLAIN),
            Err(StoreError::Db(DbError::ClockBeforeEpoch)) => final(db)@ == old(db)@,
            Err(StoreError::Db(DbError::NoRandomness)) => final(db)@ == old(db)@,
            Err(StoreError::Db(e)) => kept(
                old(db)@,
                crypto@,
                "text"@,
                encode_utf8(text@),
                limit as int,
                None,
                final(db)@,
                Err::<int, DbError>(e),
            ),
        },
        keeps_text(old(db)@, crypto@, text@, limit as int, final(db)@, r),
{
    if is_repeated(db, crypto, text) {
        return Ok(false);
    }
    let (nonce, uuid, timestamp, physical) = match draw() {
        Ok(drawn) => drawn,
        Err(e) => return Err(e),
    };
    let ghost data = encode_utf8(text@);
    let ghost (n, u) = (nonce@, uuid@);
    match add_mobile_clip_with(db, crypto, text, limit, nonce.as_slice(), uuid, timestamp, physical) {
        Some(r) => {
            proof {
                kept_under_some_nonce(
                    old(db)@,
                    crypto@,
                    "text"@,
                    data,
                    limit as int,
                    None,
                    n,
                    u,
                    timestamp as int,
                    physical as int,
                    db@,
                    r,
                );
            }
            match r {
                Ok(number) => {
                    assert(kept(
                        old(db)@,
                        crypto@,
                        "text"@,
                        data,
                        limit as int,
                        None,
                        db@,
                        Ok::<int, DbError>(number as int),
                    ));
                    assert(keeps(old(db)@, crypto@, "text"@, data, limit as int, None, db@, Ok::<i64, StoreError>(number)));
                    Ok(true)
                },
                Err(e) => Err(e),
            }
        },
        None => Ok(false),
    }
}

/// What is stored of a picture that was handed over by the user interface: its
/// thumbnail in base64, sealed under a nonce. Without a nonce, or where it is
/// too long to be sealed, no bytes are stored.
pub open spec fn mobile_image_payload(key: Seq<u8>, thumbnail: Seq<u8>, nonce: Option<Seq<u8>>) -> Seq<u8> {
    let written = encode_utf8(primitives::b64_text(thumbnail));
    match nonce {
        Some(n) if written.len() <= crypto::MAX_PLAIN => crypto::sealed_with(key, n, written),
        _ => Seq::empty(),
    }
}

/// A picture kept with its thumbnail, sealed under a nonce.
pub open spec fn image_kept_with(
    db: DbView,
    key: Seq<u8>,
    thumbnail: Seq<u8>,
    limit: int,
    attachment: Seq<char>,
    nonce: Option<Seq<u8>>,
    uuid: Seq<char>,
    timestamp: int,
    physical: int,
) -> (DbView, Result<int, DbError>) {
    let payload = mobile_image_payload(key, thumbnail, nonce);
    db.insert_clip(
        "image"@,
        payload,
        limit,
        true,
        Some(attachment),
        db::payload_hash(payload),
        uuid,
        timestamp,
        physical,
    )
}

/// Whether the stored form of a thumbnail opens to it, unless there is none.
pub open spec fn opens_to_thumbnail(key: Seq<u8>, thumbnail: Seq<u8>, payload: Seq<u8>) -> bool {
    payload.len() == 0 || crypto::decrypted(key, payload) == Ok::<Seq<u8>, CryptoError>(
        encode_utf8(primitives::b64_text(thumbnail)),
    )
}

/// Whether a store is what is left after a picture was kept with its thumbnail,
/// under some nonce or none and some uuid, and at some time.
pub open spec fn image_kept(
    before: DbView,
    key: Seq<u8>,
    thumbnail: Seq<u8>,
    limit: int,
    attachment: Seq<char>,
    after: DbView,
    r: Result<int, DbError>,
) -> bool {
    exists|nonce: Option<Seq<u8>>, uuid: Seq<char>, timestamp: int, physical: int|
        (nonce is Some ==> nonce->0.len() == crypto::NONCE_LEN) && primitives::uuid_shaped(uuid) && (after, r) == #[trigger] image_kept_with(
            before,
            key,
            thumbnail,
            limit,
            attachment,
            nonce,
            uuid,
            timestamp,
            physical,
        ) && opens_to_thumbnail(key, thumbnail, mobile_image_payload(key, thumbnail, nonce))
}

/// Keeps a picture that was handed over by the user interface, under a given
/// nonce or none and a given uuid, at given readings of the machine's clock.
pub fn add_mobile_image_with(
    db: &mut Database,
    crypto: &CryptoState,
    thumbnail: &Vec<u8>,
    attachment: String,
    limit: i64,
    nonce: Option<Vec<u8>>,
    uuid: String,
    timestamp: i64,
    physical: i64,
) -> (r: Result<i64, DbError>)
    requires
        old(db).wf(),
        old(db)@.clock_left(),
        crypto.wf(),
        thumbnail@.len() <= usize::MAX / 2,
        nonce matches Some(n) ==> n@.len() == crypto::NONCE_LEN,
    ensures
        final(db).wf(),
        (final(db)@, db::row_result(r)) == image_kept_with(
            old(db)@,
            crypto@,
            thumbnail@,
            limit as int,
            attachment@,
            crypto::opt_seq(nonce),
            uuid@,
            timestamp as int,
            physical as int,
        ),
        opens_to_thumbnail(
            crypto@,
            thumbnail@,
            mobile_image_payload(crypto@, thumbnail@, crypto::opt_seq(nonce)),
        ),
{
    let ghost n = crypto::opt_seq(nonce);
    let written = b64_encode(thumbnail.as_slice());
    let payload: Vec<u8> = match nonce {
        Some(nonce) => match crypto.encrypt_with(nonce.as_slice(), written.as_str().as_bytes()) {
            Ok(sealed) => sealed,
            Err(_) => Vec::new(),
        },
        None => Vec::new(),
    };
    assert(payload@ =~= mobile_image_payload(crypto@, thumbnail@, n));
    db.insert_clip_at("image", payload.as_slice(), limit, true, Some(attachment), uuid, timestamp, physical)
}

/// Whether a store is what is left, and this is the answer, after a picture was
/// handed over by the user interface.
pub open spec fn keeps_image(
    before: DbView,
    key: Seq<u8>,
    thumbnail: Seq<u8>,
    limit: int,
    attachment: Seq<char>,
    after: DbView,
    r: Result<i64, DbError>,
) -> bool {
    match r {
        Err(DbError::ClockBeforeEpoch) => after == before,
        Err(DbError::NoRandomness) => after == before,
        _ => image_kept(before, key, thumbnail, limit, attachment, after, db::row_result(r)),
    }
}

/// Keeps a picture that was handed over by the user interface: its thumbnail
/// goes into the history, and the picture itself is the attachment of that name.
pub fn add_mobile_image(
    db: &mut Database,
    crypto: &CryptoState,
    thumbnail: &Vec<u8>,
    attachment: String,
    limit: i64,
) -> (r: Result<i64, DbError>)
    requires
        old(db).wf(),
        old(db)@.clock_left(),
        crypto.wf(),
        thumbnail@.len() <= usize::MAX / 2,
    ensures
        final(db).wf(),
        match r {
            Err(DbError::ClockBeforeEpoch) => final(db)@ == old(db)@,
            Err(DbError::NoRandomness) => final(db)@ == old(db)@,
            _ => image_kept(
                old(db)@,
                crypto@,
                thumbnail@,
                limit as int,
                attachment@,
                final(db)@,
                db::row_result(r),
            ),
        },
        keeps_image(old(db)@, crypto@, thumbnail@, limit as int, attachment@, final(db)@, r),
{
    let nonce = fresh_nonce();
    let uuid = match fresh_uuid() {
        Some(uuid) => uuid,
        None => return Err(DbError::NoRandomness),
    };
    let (timestamp, physical) = match two_readings() {
        Some(readings) => readings,
        None => return Err(DbError::ClockBeforeEpoch),
    };
    let ghost name = attachment@;
    let r = add_mobile_image_with(db, crypto, thumbnail, attachment, limit, nonce, uuid, timestamp, physical);
    assert(image_kept(old(db)@, crypto@, thumbnail@, limit as int, name, db@, db::row_result(r)));
    r
}

// ---------------------------------------------------------------------------
// Laws
// ---------------------------------------------------------------------------

/// What was kept is the newest clip, and opens to what was given: a second look
/// at the same clipboard finds nothing new.
pub proof fn kept_clip_is_the_newest(
    before: DbView,
    key: Seq<u8>,
    content_type: Seq<char>,
    data: Seq<u8>,
    limit: int,
    attachment: Option<Seq<char>>,
    after: DbView,
    n: int,
)
    requires
        kept(before, key, content_type, data, limit, attachment, after, Ok::<int, DbError>(n)),
    ensures
        ({
            let live = model::live_clips(after.clips);
            &&& live.len() > 0
            &&& live.last().content_type == content_type
            &&& live.last().attachment_path == attachment
            &&& crypto::decrypted(key, live.last().encrypted_payload) == Ok::<Seq<u8>, CryptoError>(data)
        }),
        repeats_latest(after, key, data),
{
    let (nonce, uuid, timestamp, physical) = choose|
        nonce: Seq<u8>,
        uuid: Seq<char>,
        timestamp: int,
        physical: int,
    |
        (after, Ok::<int, DbError>(n)) == #[trigger] kept_with(
            before,
            key,
            content_type,
            data,
            limit,
            attachment,
            nonce,
            uuid,
            timestamp,
            physical,
        ) && crypto::decrypted(key, crypto::sealed_with(key, nonce, data)) == Ok::<Seq<u8>, CryptoError>(data);
    let sealed = crypto::sealed_with(key, nonce, data);
    crate::laws::inserted_clip_is_on_top(
        before,
        content_type,
        sealed,
        limit,
        attachment is Some,
        attachment,
        db::payload_hash(sealed),
        uuid,
        timestamp,
        physical,
    );
}

/// The stored type of text is "text", that of a picture "image".
pub proof fn types_are_stored_by_name(kind: ContentKind, r: &'static str)
    requires
        call_ensures(content_type, (kind,), r),
    ensures
        kind == ContentKind::Text ==> r@ == "text"@,
        kind == ContentKind::Image ==> r@ == "image"@,
{
}

/// Text on the clipboard is captured as its UTF-8 bytes, so that it can be read
/// back; only a clipboard without text, or with an empty one, gives nothing.
pub proof fn captured_text_is_read_back(text: Option<&str>, r: Option<Vec<u8>>)
    requires
        call_ensures(captured_text, (text,), r),
    ensures
        r is None <==> text is None || text->0@.len() == 0,
        r matches Some(v) ==> valid_utf8(v@) && decode_utf8(v@) == text->0@,
{
    if r is Some {
        encode_utf8_decode_utf8(text->0@);
        encode_utf8_valid_utf8(text->0@);
    }
}

/// A picture is kept as an attachment whatever its size, and text exactly where
/// it has more than 512000 bytes.
pub proof fn long_text_is_an_attachment(kind: ContentKind, length: usize, r: bool)
    requires
        call_ensures(uses_attachment, (kind, length), r),
    ensures
        kind == ContentKind::Image ==> r,
        kind == ContentKind::Text ==> (r <==> length > 512_000),
{
}

/// Of text that is kept as an attachment its length is shown and its first 512
/// bytes, or all of it where it is shorter; no picture has a part in that.
pub proof fn long_text_is_shown_by_its_beginning(payload: Vec<u8>, thumbnail: Vec<u8>, r: Vec<u8>)
    requires
        call_ensures(preview, (ContentKind::Text, &payload, &thumbnail), r),
    ensures
        payload@.len() <= 512 ==> r@ == encode_utf8(
            "[Large file: "@ + text::decimal(payload@.len()) + " bytes]\n"@ + text::utf8_lossy(payload@),
        ),
        payload@.len() > 512 ==> r@ == encode_utf8(
            "[Large file: "@ + text::decimal(payload@.len()) + " bytes]\n"@ + text::utf8_lossy(payload@.take(512)),
        ),
{
}

/// Of a picture its thumbnail is shown, in base64, whatever the picture itself
/// holds.
pub proof fn pictures_are_shown_by_their_thumbnail(payload: Vec<u8>, thumbnail: Vec<u8>, r: Vec<u8>)
    requires
        call_ensures(preview, (ContentKind::Image, &payload, &thumbnail), r),
    ensures
        thumbnail@.len() <= usize::MAX / 2 ==> r@ == encode_utf8(primitives::b64_text(thumbnail@)),
        thumbnail@.len() > usize::MAX / 2 ==> r@ == encode_utf8(primitives::b64_text(Seq::empty())),
{
}

/// What is kept in place goes into the history byte for byte, and of everything
/// else what is shown of it.
pub proof fn short_text_is_stored_as_it_is(
    kind: ContentKind,
    payload: Vec<u8>,
    thumbnail: Vec<u8>,
    attached: bool,
    shown: Vec<u8>,
    r: Vec<u8>,
)
    requires
        call_ensures(uses_attachment, (kind, payload.len()), attached),
        call_ensures(preview, (kind, &payload, &thumbnail), shown),
        call_ensures(form_to_store, (kind, &payload, &thumbnail), r),
    ensures
        kind == ContentKind::Text && payload@.len() <= 512_000 ==> r@ == payload@,
        !attached ==> r@ == payload@,
        attached ==> r@ == shown@,
{
}

/// A clip that is not deleted and has no such clip behind it is the last of
/// those that are not deleted.
proof fn last_live_clip(clips: Seq<tables::ClipView>, i: int)
    requires
        0 <= i < clips.len(),
        !clips[i].is_deleted,
        forall|j: int| i < j < clips.len() ==> (#[trigger] clips[j]).is_deleted,
    ensures
        model::live_clips(clips).len() > 0,
        model::live_clips(clips).last() == clips[i],
    decreases clips.len(),
{
    reveal(Seq::filter);
    if i < clips.len() - 1 {
        assert(clips.last().is_deleted);
        let front = clips.drop_last();
        assert(forall|j: int| i < j < front.len() ==> #[trigger] front[j] == clips[j]);
        last_live_clip(front, i);
    }
}

/// The digest that a new watcher starts with is that of what the newest clip
/// holds: the one that is not deleted and has no such clip behind it. There is
/// none where every clip is deleted, or that one cannot be opened. Data repeat the
/// newest clip exactly where their digest is that one.
pub proof fn watchers_start_with_the_newest_clip(
    db: Database,
    crypto: CryptoState,
    r: Option<Vec<u8>>,
    w: Watcher,
    data: Seq<u8>,
    i: int,
)
    requires
        crypto.wf(),
        call_ensures(latest_hash, (&db, &crypto), r),
        call_ensures(Watcher::new, (&db, &crypto), w),
        0 <= i < db@.clips.len(),
    ensures
        w@ == tables::opt_bytes(r),
        repeats_latest(db@, crypto@, data) <==> r is Some && r->0@ == primitives::sha256_digest(data),
        !db@.clips[i].is_deleted && (forall|j: int| i < j < db@.clips.len() ==> (#[trigger] db@.clips[j]).is_deleted)
            ==> match crypto::decrypted(crypto@, db@.clips[i].encrypted_payload) {
            Ok(d) => r is Some && r->0@ == primitives::sha256_digest(d),
            Err(_) => r is None,
        },
        (forall|j: int| 0 <= j < db@.clips.len() ==> (#[trigger] db@.clips[j]).is_deleted) ==> r is None,
{
    let clips = db@.clips;
    if !clips[i].is_deleted && (forall|j: int| i < j < clips.len() ==> (#[trigger] clips[j]).is_deleted) {
        last_live_clip(clips, i);
    }
    if forall|j: int| 0 <= j < clips.len() ==> (#[trigger] clips[j]).is_deleted {
        if model::live_clips(clips).len() > 0 {
            let k = crate::seqs::filter_origin(clips, |c: tables::ClipView| !c.is_deleted, 0);
            assert(clips[k].is_deleted);
        }
    }
}

/// A look at the clipboard finds news exactly where the digest is another than
/// at the last look, or there was none; right after it the same payload is no
/// news, and another one is, unless the digests meet.
pub proof fn only_changes_are_news(last: Option<Seq<u8>>, first: Seq<u8>, second: Seq<u8>)
    ensures
        last is None ==> noted(last, first).1,
        last matches Some(d) ==> (noted(last, first).1 <==> d != primitives::sha256_digest(first)),
        !noted(noted(last, first).0, first).1,
        noted(noted(last, first).0, second).1 <==> primitives::sha256_digest(first) != primitives::sha256_digest(second),
{
}

/// News are kept unless the next update is to be ignored, and only news use that
/// wish up. Either way the watcher has seen the payload.
pub proof fn ignored_news_are_seen(last: Option<Seq<u8>>, payload: Seq<u8>, ignore: bool)
    ensures
        ({
            let (after, answer) = taken_in(last, payload, ignore);
            let (seen, news) = noted(last, payload);
            &&& after == seen
            &&& !news ==> !answer.0 && !answer.1
            &&& news && ignore ==> !answer.0 && answer.1
            &&& news && !ignore ==> answer.0 && !answer.1
        }),
{
}

/// Whether data were inserted sealed: as a clip of the type, with the limit and
/// the attachment given, under its own digest, and so that it opens to the data.
pub open spec fn inserted_sealed(
    before: DbView,
    key: Seq<u8>,
    content_type: Seq<char>,
    data: Seq<u8>,
    limit: int,
    attachment: Option<Seq<char>>,
    nonce: Seq<u8>,
    uuid: Seq<char>,
    timestamp: int,
    physical: int,
    after: DbView,
    r: Result<i64, StoreError>,
) -> bool {
    let sealed = crypto::sealed_with(key, nonce, data);
    let (a, q) = before.insert_clip(
        content_type,
        sealed,
        limit,
        attachment is Some,
        attachment,
        primitives::hex_text(primitives::sha256_digest(sealed)),
        uuid,
        timestamp,
        physical,
    );
    &&& crypto::decrypted(key, sealed) == Ok::<Seq<u8>, CryptoError>(data)
    &&& after == a
    &&& match r {
        Ok(n) => q == Ok::<int, DbError>(n as int),
        Err(StoreError::Db(e)) => q == Err::<int, DbError>(e),
        Err(StoreError::Crypto(_)) => false,
    }
}

/// Whether data were inserted sealed, under some nonce and uuid and at some time.
pub open spec fn inserted_somehow(
    before: DbView,
    key: Seq<u8>,
    content_type: Seq<char>,
    data: Seq<u8>,
    limit: int,
    attachment: Option<Seq<char>>,
    after: DbView,
    r: Result<i64, StoreError>,
) -> bool {
    exists|nonce: Seq<u8>, uuid: Seq<char>, timestamp: int, physical: int|
        nonce.len() == 24 && #[trigger] inserted_sealed(
            before,
            key,
            content_type,
            data,
            limit,
            attachment,
            nonce,
            uuid,
            timestamp,
            physical,
            after,
            r,
        )
}

/// Whether there is nothing to insert for want of random bytes or of a clock.
pub open spec fn nothing_drawn(r: Result<i64, StoreError>) -> bool {
    r == Err::<i64, StoreError>(StoreError::Crypto(CryptoError::NoRandomness)) || r == Err::<i64, StoreError>(
        StoreError::Db(DbError::NoRandomness),
    ) || r == Err::<i64, StoreError>(StoreError::Db(DbError::ClockBeforeEpoch))
}

/// A clip is kept sealed, with its type, its limit and its attachment as they
/// were given, unless its data have more than 274877906816 bytes: those are
/// refused, and nothing changes.
pub proof fn clips_are_kept_sealed(
    before: DbView,
    key: Seq<u8>,
    content_type: Seq<char>,
    data: Seq<u8>,
    limit: int,
    attachment: Option<Seq<char>>,
    nonce: Seq<u8>,
    uuid: Seq<char>,
    timestamp: int,
    physical: int,
    after: DbView,
    r: Result<i64, StoreError>,
)
    requires
        keeps_with(before, key, content_type, data, limit, attachment, nonce, uuid, timestamp, physical, after, r),
        opens(key, nonce, data),
    ensures
        data.len() > 274_877_906_816 ==> after == before && r == Err::<i64, StoreError>(
            StoreError::Crypto(CryptoError::Cipher),
        ),
        data.len() <= 274_877_906_816 ==> inserted_sealed(
            before,
            key,
            content_type,
            data,
            limit,
            attachment,
            nonce,
            uuid,
            timestamp,
            physical,
            after,
            r,
        ),
{
}

/// A clip is kept under a nonce and a uuid that were drawn for it. Where they
/// cannot be drawn, or the data are too long to be sealed, nothing changes.
pub proof fn clips_are_kept_under_drawn_nonces(
    before: DbView,
    key: Seq<u8>,
    content_type: Seq<char>,
    data: Seq<u8>,
    limit: int,
    attachment: Option<Seq<char>>,
    after: DbView,
    r: Result<i64, StoreError>,
)
    requires
        keeps(before, key, content_type, data, limit, attachment, after, r),
    ensures
        ({
            ||| after == before && nothing_drawn(r)
            ||| after == before && data.len() > 274_877_906_816 && r == Err::<i64, StoreError>(
                StoreError::Crypto(CryptoError::Cipher),
            )
            ||| inserted_somehow(before, key, content_type, data, limit, attachment, after, r)
        }),
{
    if !nothing_drawn(r) && !(r is Err && r->Err_0 is Crypto) {
        assert(kept(before, key, content_type, data, limit, attachment, after, insertion(r)));
        let (nonce, uuid, timestamp, physical) = choose|
            nonce: Seq<u8>,
            uuid: Seq<char>,
            timestamp: int,
            physical: int,
        |
            nonce.len() == crypto::NONCE_LEN && (after, insertion(r)) == #[trigger] kept_with(
                before,
                key,
                content_type,
                data,
                limit,
                attachment,
                nonce,
                uuid,
                timestamp,
                physical,
            ) && crypto::decrypted(key, crypto::sealed_with(key, nonce, data)) == Ok::<Seq<u8>, CryptoError>(data);
        assert(inserted_sealed(
            before,
            key,
            content_type,
            data,
            limit,
            attachment,
            nonce,
            uuid,
            timestamp,
            physical,
            after,
            r,
        ));
    }
}

/// Whether these are the data that stand for a captured payload: text of up to
/// 512000 bytes itself, longer text by its length and beginning, a picture by a
/// thumbnail.
pub open spec fn stands_for(kind: ContentKind, payload: Seq<u8>, thumbnail: Seq<u8>, data: Seq<u8>) -> bool {
    match kind {
        ContentKind::Text => if payload.len() <= 512_000 {
            data == payload
        } else {
            data == encode_utf8(
                "[Large file: "@ + text::decimal(payload.len()) + " bytes]\n"@ + text::utf8_lossy(payload.take(512)),
            )
        },
        ContentKind::Image => thumbnail.len() <= usize::MAX / 2 ==> data == encode_utf8(primitives::b64_text(thumbnail)),
    }
}

/// The name of a kind of content.
pub open spec fn kind_name(kind: ContentKind) -> Seq<char> {
    if kind == ContentKind::Image {
        "image"@
    } else {
        "text"@
    }
}

/// What was captured is kept as a clip of its kind that stands for it.
pub proof fn captured_payload_is_kept_with(
    before: DbView,
    key: Seq<u8>,
    kind: ContentKind,
    payload: Seq<u8>,
    thumbnail: Seq<u8>,
    limit: int,
    attachment: Option<Seq<char>>,
    nonce: Seq<u8>,
    uuid: Seq<char>,
    timestamp: int,
    physical: int,
    after: DbView,
    r: Result<i64, StoreError>,
) -> (data: Seq<u8>)
    requires
        keeps_captured_with(
            before,
            key,
            kind,
            payload,
            thumbnail,
            limit,
            attachment,
            nonce,
            uuid,
            timestamp,
            physical,
            after,
            r,
        ),
    ensures
        stands_for(kind, payload, thumbnail, data),
        data.len() > 274_877_906_816 ==> after == before && r == Err::<i64, StoreError>(
            StoreError::Crypto(CryptoError::Cipher),
        ),
        data.len() <= 274_877_906_816 ==> inserted_sealed(
            before,
            key,
            kind_name(kind),
            data,
            limit,
            attachment,
            nonce,
            uuid,
            timestamp,
            physical,
            after,
            r,
        ),
{
    let data = stored_form(kind, payload, thumbnail);
    clips_are_kept_sealed(
        before,
        key,
        stored_type(kind),
        data,
        limit,
        attachment,
        nonce,
        uuid,
        timestamp,
        physical,
        after,
        r,
    );
    data
}

/// What was captured is kept as a clip of its kind that stands for it, a picture
/// by the thumbnail of its file, unless it cannot be sealed; then nothing changes.
pub proof fn captured_payload_is_kept(
    before: DbView,
    key: Seq<u8>,
    kind: ContentKind,
    payload: Seq<u8>,
    limit: int,
    attachment: Option<Seq<char>>,
    after: DbView,
    r: Result<i64, StoreError>,
) -> (what: (Seq<u8>, Seq<u8>))
    requires
        keeps_captured(before, key, kind, payload, limit, attachment, after, r),
    ensures
        kind == ContentKind::Image ==> image_util::thumbnail_of(payload, what.0),
        stands_for(kind, payload, what.0, what.1),
        ({
            ||| after == before && nothing_drawn(r)
            ||| after == before && what.1.len() > 274_877_906_816 && r == Err::<i64, StoreError>(
                StoreError::Crypto(CryptoError::Cipher),
            )
            ||| inserted_somehow(before, key, kind_name(kind), what.1, limit, attachment, after, r)
        }),
{
    let thumbnail = choose|thumbnail: Seq<u8>|
        illustrates(kind, payload, thumbnail) && keeps(
            before,
            key,
            stored_type(kind),
            #[trigger] stored_form(kind, payload, thumbnail),
            limit,
            attachment,
            after,
            r,
        );
    let data = stored_form(kind, payload, thumbnail);
    clips_are_kept_under_drawn_nonces(before, key, stored_type(kind), data, limit, attachment, after, r);
    (thumbnail, data)
}

/// Text that is handed over is kept as text, without an attachment, exactly
/// where its digest is not that of what the newest clip holds; otherwise nothing
/// changes.
pub proof fn handed_text_is_kept_once(
    before: DbView,
    key: Seq<u8>,
    text: Seq<char>,
    limit: int,
    nonce: Seq<u8>,
    uuid: Seq<char>,
    timestamp: int,
    physical: int,
    after: DbView,
    r: Option<Result<i64, StoreError>>,
)
    requires
        keeps_text_with(before, key, text, limit, nonce, uuid, timestamp, physical, after, r),
    ensures
        r is None <==> latest_digest(before, key) == Some(primitives::sha256_digest(encode_utf8(text))),
        r is None ==> after == before,
        r is Some && encode_utf8(text).len() <= 274_877_906_816 ==> inserted_sealed(
            before,
            key,
            "text"@,
            encode_utf8(text),
            limit,
            None,
            nonce,
            uuid,
            timestamp,
            physical,
            after,
            r->0,
        ),
        r is Some && encode_utf8(text).len() > 274_877_906_816 ==> after == before && r->0 == Err::<i64, StoreError>(
            StoreError::Crypto(CryptoError::Cipher),
        ),
{
}

/// Text that is handed over is kept, under a nonce and a uuid that were drawn,
/// exactly where its digest is not that of what the newest clip holds.
pub proof fn handed_text_is_kept(
    before: DbView,
    key: Seq<u8>,
    text: Seq<char>,
    limit: int,
    after: DbView,
    r: Result<bool, StoreError>,
)
    requires
        keeps_text(before, key, text, limit, after, r),
    ensures
        r == Ok::<bool, StoreError>(false) <==> latest_digest(before, key) == Some(
            primitives::sha256_digest(encode_utf8(text)),
        ),
        r == Ok::<bool, StoreError>(false) ==> after == before,
        r == Ok::<bool, StoreError>(true) ==> exists|n: i64| #[trigger]
            inserted_somehow(before, key, "text"@, encode_utf8(text), limit, None, after, Ok::<i64, StoreError>(n)),
        r matches Err(e) ==> {
            ||| after == before && nothing_drawn(Err::<i64, StoreError>(e))
            ||| after == before && encode_utf8(text).len() > 274_877_906_816 && e == StoreError::Crypto(
                CryptoError::Cipher,
            )
            ||| inserted_somehow(before, key, "text"@, encode_utf8(text), limit, None, after, Err::<i64, StoreError>(e))
        },
{
    let data = encode_utf8(text);
    match r {
        Ok(true) => {
            let n = choose|n: i64| #[trigger]
                keeps(before, key, "text"@, data, limit, None, after, Ok::<i64, StoreError>(n));
            clips_are_kept_under_drawn_nonces(before, key, "text"@, data, limit, None, after, Ok::<i64, StoreError>(n));
        },
        Ok(false) => {},
        Err(e) => {
            clips_are_kept_under_drawn_nonces(before, key, "text"@, data, limit, None, after, Err::<i64, StoreError>(e));
        },
    }
}

/// A picture that is handed over is kept as a clip of its own with the named
/// attachment. What is stored opens to its thumbnail in base64; nothing is stored
/// where there is no nonce for it, or it has more than 274877906816 bytes.
pub proof fn handed_picture_is_kept(
    before: DbView,
    key: Seq<u8>,
    thumbnail: Seq<u8>,
    limit: int,
    attachment: Seq<char>,
    nonce: Option<Seq<u8>>,
    uuid: Seq<char>,
    timestamp: int,
    physical: int,
)
    requires
        opens_to_thumbnail(key, thumbnail, mobile_image_payload(key, thumbnail, nonce)),
        nonce matches Some(n) ==> n.len() == 24,
    ensures
        ({
            let written = encode_utf8(primitives::b64_text(thumbnail));
            let payload = mobile_image_payload(key, thumbnail, nonce);
            &&& nonce is None || written.len() > 274_877_906_816 ==> payload.len() == 0
            &&& nonce is Some && written.len() <= 274_877_906_816 ==> crypto::decrypted(key, payload) == Ok::<
                Seq<u8>,
                CryptoError,
            >(written) && payload.take(24) == nonce->0
            &&& image_kept_with(before, key, thumbnail, limit, attachment, nonce, uuid, timestamp, physical)
                == before.insert_clip(
                "image"@,
                payload,
                limit,
                true,
                Some(attachment),
                primitives::hex_text(primitives::sha256_digest(payload)),
                uuid,
                timestamp,
                physical,
            )
        }),
{
    let written = encode_utf8(primitives::b64_text(thumbnail));
    if nonce is Some && written.len() <= 274_877_906_816 {
        let payload = mobile_image_payload(key, thumbnail, nonce);
        assert(payload.take(24) =~= nonce->0);
    }
}

/// A picture that is handed over is kept under a uuid that was drawn. Where none
/// can be drawn, or the clock of the machine is set to before 1970, nothing
/// changes.
pub proof fn handed_picture_is_kept_somehow(
    before: DbView,
    key: Seq<u8>,
    thumbnail: Seq<u8>,
    limit: int,
    attachment: Seq<char>,
    after: DbView,
    r: Result<i64, DbError>,
)
    requires
        keeps_image(before, key, thumbnail, limit, attachment, after, r),
    ensures
        ({
            ||| after == before && (r == Err::<i64, DbError>(DbError::ClockBeforeEpoch) || r == Err::<i64, DbError>(
                DbError::NoRandomness,
            ))
            ||| exists|payload: Seq<u8>, uuid: Seq<char>, timestamp: int, physical: int|
                {
                    &&& payload.len() == 0 || crypto::decrypted(key, payload) == Ok::<Seq<u8>, CryptoError>(
                        encode_utf8(primitives::b64_text(thumbnail)),
                    )
                    &&& (after, db::row_result(r)) == #[trigger] before.insert_clip(
                        "image"@,
                        payload,
                        limit,
                        true,
                        Some(attachment),
                        primitives::hex_text(primitives::sha256_digest(payload)),
                        uuid,
                        timestamp,
                        physical,
                    )
                }
        }),
{
    if r != Err::<i64, DbError>(DbError::ClockBeforeEpoch) && r != Err::<i64, DbError>(DbError::NoRandomness) {
        let row = db::row_result(r);
        assert(image_kept(before, key, thumbnail, limit, attachment, after, row));
        let (nonce, uuid, timestamp, physical) = choose|
            nonce: Option<Seq<u8>>,
            uuid: Seq<char>,
            timestamp: int,
            physical: int,
        |
            (after, row) == #[trigger] image_kept_with(
                before,
                key,
                thumbnail,
                limit,
                attachment,
                nonce,
                uuid,
                timestamp,
                physical,
            ) && opens_to_thumbnail(key, thumbnail, mobile_image_payload(key, thumbnail, nonce));
        let payload = mobile_image_payload(key, thumbnail, nonce);
        assert((after, row) == before.insert_clip(
            "image"@,
            payload,
            limit,
            true,
            Some(attachment),
            primitives::hex_text(primitives::sha256_digest(payload)),
            uuid,
            timestamp,
            physical,
        ));
    }
}

} // verus!
