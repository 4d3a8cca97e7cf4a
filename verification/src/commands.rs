//! What the user interface asks for that touches more than one part.
use crate::crypto;
use crate::crypto::{CryptoError, CryptoState};
use crate::db::Database;
use crate::image_util;
use crate::image_util::decode_image;
use crate::model::DbView;
use crate::network::{NetView, NetworkManager};
use crate::password;
use crate::password::{check_password, password_hash, PasswordError};
use crate::primitives;
use crate::primitives::b64_decode;
use crate::settings::{SettingsManager, SettingsView};
use crate::tables::ClipView;
use crate::text::same;
use vstd::prelude::*;
use vstd::utf8::*;

verus! {

/// What becomes of the settings and the store when a master password is set or
/// taken away, with the answer.
pub open spec fn password_changed(
    settings: SettingsView,
    db: DbView,
    password: Option<Seq<char>>,
    after: SettingsView,
    db_after: DbView,
    r: Result<(), PasswordError>,
) -> bool {
    match password {
        Some(p) => match password::password_fault(p) {
            Some(e) => r == Err::<(), PasswordError>(e) && after == settings && db_after == db,
            None => r is Ok && after == settings.with_password_hash(Some(password::password_digest(p))) && db_after == db,
        },
        None => r is Ok && after == settings.with_password_hash(None) && db_after == db.unlocked(),
    }
}

/// Sets the master password, or takes it away; then every clip is unlocked. A
/// refused password changes nothing.
pub fn set_master_password(
    db: &mut Database,
    settings: &mut SettingsManager,
    password: Option<&str>,
) -> (r: Result<(), PasswordError>)
    requires
        old(db).wf(),
    ensures
        final(db).wf(),
        match password {
            Some(p) => {
                &&& final(db)@ == old(db)@
                &&& match password::password_fault(p@) {
                    Some(e) => r == Err::<(), PasswordError>(e) && final(settings)@ == old(settings)@,
                    None => r is Ok && final(settings)@ == (SettingsView {
                        master_password_hash: Some(password::password_digest(p@)),
                        ..old(settings)@
                    }),
                }
            },
            None => {
                &&& r is Ok
                &&& final(db)@ == old(db)@.with_clips(
                    old(db)@.clips.map_values(|c: ClipView| ClipView { is_locked: false, ..c }),
                )
                &&& final(settings)@ == (SettingsView { master_password_hash: None, ..old(settings)@ })
            },
        },
        password_changed(
            old(settings)@,
            old(db)@,
            match password {
                Some(p) => Some(p@),
                None => None,
            },
            final(settings)@,
            final(db)@,
            r,
        ),
{
    match password {
        Some(p) => match check_password(p) {
            Some(e) => Err(e),
            None => {
                settings.set_master_password_hash(Some(password_hash(p)));
                Ok(())
            },
        },
        None => {
            db.clear_all_locks();
            settings.set_master_password_hash(None);
            Ok(())
        },
    }
}

/// Whether a password is the master password. Without one, any is.
pub open spec fn is_master_password(settings: SettingsView, password: Seq<char>) -> bool {
    match settings.master_password_hash {
        Some(hash) => password::password_digest(password) == hash,
        None => true,
    }
}

/// Whether a password is the master password.
pub fn verify_master_password(settings: &SettingsManager, password: &str) -> (r: bool)
    ensures
        r == is_master_password(settings@, password@),
{
    match settings.get().master_password_hash {
        Some(hash) => same(password_hash(password).as_str(), hash.as_str()),
        None => true,
    }
}

/// Whether there is a master password.
pub fn has_master_password(settings: &SettingsManager) -> (r: bool)
    ensures
        r == (settings@.master_password_hash is Some),
{
    settings.get().master_password_hash.is_some()
}

/// What becomes of the devices and the addresses when a device joins another
/// sync group.
pub open spec fn joined(
    network: NetView,
    settings: SettingsView,
    db: DbView,
    network_after: NetView,
    settings_after: SettingsView,
    db_after: DbView,
) -> bool {
    &&& network_after == network.alone().unblocked()
    &&& settings_after == settings.blocking_none()
    &&& db_after == db.without_peers()
}

/// Joins another sync group by its written key. The devices of the old group
/// are forgotten first, around and known, and no address stays blocked; that
/// holds even where the key is refused.
pub fn set_sync_key(
    network: &mut NetworkManager,
    settings: &mut SettingsManager,
    db: &mut Database,
    crypto: &mut CryptoState,
    hex_key: &str,
) -> (r: Result<(), CryptoError>)
    requires
        old(network).wf(),
        old(db).wf(),
        old(crypto).wf(),
    ensures
        final(network).wf(),
        final(network)@ == (NetView { peers: Seq::empty(), blocked: Seq::empty(), ..old(network)@ }),
        final(settings)@ == (SettingsView { blocked_ips: Seq::empty(), ..old(settings)@ }),
        final(db).wf(),
        final(db)@ == (DbView { states: Seq::empty(), peers: Seq::empty(), ..old(db)@ }),
        final(crypto).wf(),
        match r {
            Ok(_) => crypto::key_read(encode_utf8(hex_key@), Ok(final(crypto)@), CryptoError::KeyLength),
            Err(e) => final(crypto)@ == old(crypto)@ && crypto::key_read(
                encode_utf8(hex_key@),
                Err(e),
                CryptoError::KeyLength,
            ),
        },
        crypto::key_set(old(crypto)@, hex_key@, final(crypto)@, r),
        joined(old(network)@, old(settings)@, old(db)@, final(network)@, final(settings)@, final(db)@),
{
    network.clear_peers();
    network.clear_blocks();
    settings.clear_blocked_ips();
    db.clear_all_peers();
    crypto.set_key_hex(hex_key)
}

/// The bytes of a picture that the user interface hands over in base64, or the
/// words in which they are refused.
pub fn picture_from_base64(text: &str) -> (r: Result<Vec<u8>, String>)
    ensures
        match r {
            Ok(v) => primitives::b64_decoded(text@) == Ok::<Seq<u8>, Seq<char>>(v@),
            Err(e) => primitives::b64_decoded(text@) == Err::<Seq<u8>, Seq<char>>(e@),
        },
{
    b64_decode(text)
}

/// Whether a picture is what a text in base64 holds.
pub open spec fn previews(text: Seq<char>, img: image::DynamicImage) -> bool {
    match primitives::b64_decoded(text) {
        Ok(data) => image_util::decodes(data, Ok(img)),
        Err(_) => false,
    }
}

/// Whether a file cannot be decoded, in the words in which that is reported.
pub open spec fn decode_fails(data: Seq<u8>, message: Seq<char>) -> bool {
    exists|words: Seq<char>|
        #[trigger] image_util::refuses(data, words) && message == "Failed to decode image: "@ + words
}

/// Whether a text in base64 holds no picture, in the words in which that is
/// reported.
pub open spec fn preview_fails(text: Seq<char>, message: Seq<char>) -> bool {
    match primitives::b64_decoded(text) {
        Ok(data) => decode_fails(data, message),
        Err(e) => message == e,
    }
}

/// The picture that is shown when the user interface hands one over in base64,
/// or the words in which it is refused.
pub fn picture_to_preview(text: &str) -> (r: Result<image::DynamicImage, String>)
    ensures
        match r {
            Ok(img) => previews(text@, img),
            Err(e) => preview_fails(text@, e@),
        },
{
    match picture_from_base64(text) {
        Ok(data) => match decode_image(data.as_slice()) {
            Ok(img) => Ok(img),
            Err(e) => {
                assert(image_util::refuses(data@, e@));
                let mut message = "Failed to decode image: ".to_owned();
                message.append(e.as_str());
                assert(decode_fails(data@, message@));
                Err(message)
            },
        },
        Err(e) => Err(e),
    }
}

/// A password that was set is accepted.
pub proof fn set_password_is_accepted(settings: SettingsView, password: Seq<char>)
    ensures
        is_master_password(
            SettingsView { master_password_hash: Some(password::password_digest(password)), ..settings },
            password,
        ),
{
}

/// A strong password becomes the master password: from then on a password is
/// accepted exactly where its SHA-256 digest is that of the one set. A weak one is
/// refused, and nothing changes. Neither touches the clips or another setting.
pub proof fn set_password_is_asked_for(
    settings: SettingsView,
    db: DbView,
    p: &str,
    fault: Option<PasswordError>,
    after: SettingsManager,
    db_after: DbView,
    r: Result<(), PasswordError>,
    q: &str,
    accepted: bool,
    asked: bool,
)
    requires
        call_ensures(check_password, (p,), fault),
        password_changed(settings, db, Some(p@), after@, db_after, r),
        call_ensures(verify_master_password, (&after, q), accepted),
        call_ensures(has_master_password, (&after,), asked),
    ensures
        db_after == db,
        fault matches Some(e) ==> r == Err::<(), PasswordError>(e) && after@ == settings,
        fault is None ==> {
            &&& r is Ok
            &&& asked
            &&& accepted <==> primitives::hex_text(primitives::sha256_digest(encode_utf8(q@))) == primitives::hex_text(
                primitives::sha256_digest(encode_utf8(p@)),
            )
            &&& after@.history_limit == settings.history_limit
            &&& after@.global_shortcut == settings.global_shortcut
            &&& after@.theme == settings.theme
            &&& after@.blocked_ips == settings.blocked_ips
        },
{
}

/// Where the master password was taken away any password is accepted, and no
/// clip is locked; nothing else changes in a clip or in the settings.
pub proof fn without_a_password_nothing_is_locked(
    settings: SettingsView,
    db: DbView,
    after: SettingsManager,
    db_after: DbView,
    r: Result<(), PasswordError>,
    q: &str,
    accepted: bool,
    asked: bool,
    i: int,
)
    requires
        password_changed(settings, db, None, after@, db_after, r),
        call_ensures(verify_master_password, (&after, q), accepted),
        call_ensures(has_master_password, (&after,), asked),
        0 <= i < db.clips.len(),
    ensures
        r is Ok,
        accepted,
        !asked,
        db_after.clips.len() == db.clips.len(),
        db_after.clips[i] == (ClipView { is_locked: false, ..db.clips[i] }),
        db_after == (DbView { clips: db_after.clips, ..db }),
        after@ == (SettingsView { master_password_hash: None, ..settings }),
{
}

/// A password is accepted exactly where its SHA-256 digest, in hexadecimal, is
/// the one in the settings; without one there any is.
pub proof fn stored_digest_decides(m: SettingsManager, q: &str, r: bool, asked: bool)
    requires
        call_ensures(verify_master_password, (&m, q), r),
        call_ensures(has_master_password, (&m,), asked),
    ensures
        asked <==> m@.master_password_hash is Some,
        !asked ==> r,
        asked ==> (r <==> m@.master_password_hash == Some(
            primitives::hex_text(primitives::sha256_digest(encode_utf8(q@))),
        )),
{
}

/// A device that joins another group knows no other device and has no address
/// blocked, on the network and in the settings. Its clips and events, and its
/// other settings, stay.
pub proof fn joining_forgets_the_old_group(
    network: NetView,
    settings: SettingsView,
    db: DbView,
    network_after: NetView,
    settings_after: SettingsView,
    db_after: DbView,
)
    requires
        joined(network, settings, db, network_after, settings_after, db_after),
    ensures
        network_after.peers.len() == 0,
        network_after.blocked.len() == 0,
        network_after == (NetView { peers: network_after.peers, blocked: network_after.blocked, ..network }),
        settings_after.blocked_ips.len() == 0,
        settings_after == (SettingsView { blocked_ips: settings_after.blocked_ips, ..settings }),
        db_after.peers.len() == 0,
        db_after.states.len() == 0,
        db_after == (DbView { peers: db_after.peers, states: db_after.states, ..db }),
{
}

/// A picture in base64 is handed on byte for byte, or refused in the words of the
/// decoder.
pub proof fn base64_is_decoded(text: &str, r: Result<Vec<u8>, String>)
    requires
        call_ensures(picture_from_base64, (text,), r),
    ensures
        primitives::b64_decoded(text@) matches Ok(data) ==> (r matches Ok(v) && v@ == data),
        primitives::b64_decoded(text@) matches Err(words) ==> (r matches Err(e) && e@ == words),
{
}

/// A picture that is previewed is what the bytes in the text decode to. It is
/// refused exactly where one of the two decoders refuses, in its words.
pub proof fn previews_show_the_picture(text: &str, bytes: Result<Vec<u8>, String>, r: Result<image::DynamicImage, String>)
    requires
        call_ensures(picture_from_base64, (text,), bytes),
        call_ensures(picture_to_preview, (text,), r),
    ensures
        bytes matches Err(words) ==> (r matches Err(e) && e@ == words@),
        bytes is Ok && r is Ok ==> image_util::decodes(bytes->Ok_0@, Ok(r->Ok_0)),
        bytes is Ok && r is Err ==> exists|words: Seq<char>| #[trigger]
            image_util::decodes(bytes->Ok_0@, Err(words)) && r->Err_0@ == "Failed to decode image: "@ + words,
{
    if bytes is Ok && r is Err {
        let data = bytes->Ok_0@;
        assert(decode_fails(data, r->Err_0@));
        let words = choose|words: Seq<char>|
            #[trigger] image_util::refuses(data, words) && r->Err_0@ == "Failed to decode image: "@ + words;
        assert(image_util::decodes(data, Err(words)));
    }
}

} // verus!
