//! The settings of a device.
use crate::tables;
use crate::tables::copy_opt_text;
use crate::text;
use crate::text::same;
use vstd::prelude::*;

verus! {

broadcast use vstd::seq_lib::group_seq_properties;

/// The settings of a device.
#[derive(Clone)]
pub struct AppSettings {
    pub history_limit: i64,
    pub global_shortcut: String,
    pub theme: String,
    pub master_password_hash: Option<String>,
    pub blocked_ips: Vec<String>,
}

/// What the settings stand for.
#[verifier::ext_equal]
pub struct SettingsView {
    pub history_limit: int,
    pub global_shortcut: Seq<char>,
    pub theme: Seq<char>,
    pub master_password_hash: Option<Seq<char>>,
    pub blocked_ips: Seq<Seq<char>>,
}

impl SettingsView {
    /// The settings with another limit.
    pub open spec fn with_limit(self, limit: int) -> SettingsView {
        SettingsView { history_limit: limit, ..self }
    }

    /// The settings with an address blocked.
    pub open spec fn blocking(self, ip: Seq<char>) -> SettingsView {
        if self.blocked_ips.contains(ip) {
            self
        } else {
            SettingsView { blocked_ips: self.blocked_ips.push(ip), ..self }
        }
    }

    /// The settings with no address blocked.
    pub open spec fn blocking_none(self) -> SettingsView {
        SettingsView { blocked_ips: Seq::empty(), ..self }
    }

    /// The settings with another shortcut.
    pub open spec fn with_shortcut(self, shortcut: Seq<char>) -> SettingsView {
        SettingsView { global_shortcut: shortcut, ..self }
    }

    /// The settings with another theme.
    pub open spec fn with_theme(self, theme: Seq<char>) -> SettingsView {
        SettingsView { theme, ..self }
    }

    /// The settings with another digest of the master password, or none.
    pub open spec fn with_password_hash(self, hash: Option<Seq<char>>) -> SettingsView {
        SettingsView { master_password_hash: hash, ..self }
    }
}

impl View for AppSettings {
    type V = SettingsView;

    open spec fn view(&self) -> SettingsView {
        SettingsView {
            history_limit: self.history_limit as int,
            global_shortcut: self.global_shortcut@,
            theme: self.theme@,
            master_password_hash: tables::opt_text(self.master_password_hash),
            blocked_ips: text::texts(self.blocked_ips@),
        }
    }
}

/// The theme of a device that has not chosen one.
pub fn default_theme() -> (r: String)
    ensures
        r@ == "system"@,
{
    "system".to_owned()
}

/// The settings of a new device.
pub open spec fn default_settings() -> SettingsView {
    SettingsView {
        history_limit: 100,
        global_shortcut: "CommandOrControl+Shift+C"@,
        theme: "system"@,
        master_password_hash: None,
        blocked_ips: Seq::empty(),
    }
}

impl Default for AppSettings {
    fn default() -> (r: AppSettings)
        ensures
            r@ == default_settings(),
    {
        let r = AppSettings {
            history_limit: 100,
            global_shortcut: "CommandOrControl+Shift+C".to_owned(),
            theme: default_theme(),
            master_password_hash: None,
            blocked_ips: Vec::new(),
        };
        assert(r@.blocked_ips =~= Seq::empty());
        r
    }
}

/// A copy of a list of texts.
pub fn copy_texts(v: &Vec<String>) -> (r: Vec<String>)
    ensures
        text::texts(r@) == text::texts(v@),
{
    let mut out: Vec<String> = Vec::new();
    let mut i: usize = 0;
    assert(text::texts(out@) =~= text::texts(v@).take(0));
    while i < v.len()
        invariant
            i <= v@.len(),
            text::texts(out@) == text::texts(v@).take(i as int),
        decreases v@.len() - i,
    {
        let ghost so_far = text::texts(out@);
        out.push(v[i].clone());
        proof {
            assert(text::texts(out@) =~= so_far.push(v@[i as int]@));
            assert(text::texts(v@).take(i as int + 1) =~= so_far.push(v@[i as int]@));
        }
        i += 1;
    }
    assert(text::texts(v@).take(i as int) =~= text::texts(v@));
    out
}

impl AppSettings {
    /// A copy of the settings.
    pub fn copy(&self) -> (r: AppSettings)
        ensures
            r@ == self@,
    {
        AppSettings {
            history_limit: self.history_limit,
            global_shortcut: self.global_shortcut.clone(),
            theme: self.theme.clone(),
            master_password_hash: copy_opt_text(&self.master_password_hash),
            blocked_ips: copy_texts(&self.blocked_ips),
        }
    }
}

/// The settings in use.
pub struct SettingsManager {
    settings: AppSettings,
}

impl View for SettingsManager {
    type V = SettingsView;

    closed spec fn view(&self) -> SettingsView {
        self.settings@
    }
}

impl SettingsManager {
    /// The stored settings, or those of a new device where none could be read.
    pub fn new(stored: Option<AppSettings>) -> (r: SettingsManager)
        ensures
            r@ == match stored {
                Some(s) => s@,
                None => default_settings(),
            },
    {
        match stored {
            Some(settings) => SettingsManager { settings },
            None => SettingsManager { settings: AppSettings::default() },
        }
    }

    /// The settings.
    pub fn get(&self) -> (r: AppSettings)
        ensures
            r@ == self@,
    {
        self.settings.copy()
    }

    /// Sets how many clips the history keeps.
    pub fn set_limit(&mut self, limit: i64)
        ensures
            final(self)@ == (SettingsView { history_limit: limit as int, ..old(self)@ }),
            final(self)@ == old(self)@.with_limit(limit as int),
    {
        self.settings.history_limit = limit;
    }

    /// The blocked addresses.
    pub fn get_blocked_ips(&self) -> (r: Vec<String>)
        ensures
            text::texts(r@) == self@.blocked_ips,
    {
        copy_texts(&self.settings.blocked_ips)
    }

    /// Blocks an address. Says whether it was not blocked before, so that the
    /// settings have to be stored.
    pub fn add_blocked_ip(&mut self, ip: String) -> (r: bool)
        ensures
            r == !old(self)@.blocked_ips.contains(ip@),
            final(self)@ == (if r {
                SettingsView { blocked_ips: old(self)@.blocked_ips.push(ip@), ..old(self)@ }
            } else {
                old(self)@
            }),
            final(self)@ == old(self)@.blocking(ip@),
    {
        let ghost before = self@.blocked_ips;
        let mut i: usize = 0;
        while i < self.settings.blocked_ips.len()
            invariant
                *self == *old(self),
                before == self@.blocked_ips,
                i <= self.settings.blocked_ips@.len(),
                forall|j: int| 0 <= j < i ==> (#[trigger] before[j]) != ip@,
            decreases self.settings.blocked_ips@.len() - i,
        {
            if same(self.settings.blocked_ips[i].as_str(), ip.as_str()) {
                assert(before[i as int] == ip@);
                return false;
            }
            i += 1;
        }
        let ghost v = ip@;
        self.settings.blocked_ips.push(ip);
        assert(self@.blocked_ips =~= before.push(v));
        true
    }

    /// Unblocks every address.
    pub fn clear_blocked_ips(&mut self)
        ensures
            final(self)@ == (SettingsView { blocked_ips: Seq::empty(), ..old(self)@ }),
            final(self)@ == old(self)@.blocking_none(),
    {
        self.settings.blocked_ips.clear();
        assert(self@.blocked_ips =~= Seq::empty());
    }

    /// Sets the shortcut that shows the window.
    pub fn set_shortcut(&mut self, shortcut: String)
        ensures
            final(self)@ == (SettingsView { global_shortcut: shortcut@, ..old(self)@ }),
            final(self)@ == old(self)@.with_shortcut(shortcut@),
    {
        self.settings.global_shortcut = shortcut;
    }

    /// Sets the theme.
    pub fn set_theme(&mut self, theme: String)
        ensures
            final(self)@ == (SettingsView { theme: theme@, ..old(self)@ }),
            final(self)@ == old(self)@.with_theme(theme@),
    {
        self.settings.theme = theme;
    }

    /// Sets the digest of the master password, or takes it away.
    pub fn set_master_password_hash(&mut self, hash: Option<String>)
        ensures
            final(self)@ == (SettingsView { master_password_hash: tables::opt_text(hash), ..old(self)@ }),
            final(self)@ == old(self)@.with_password_hash(tables::opt_text(hash)),
    {
        self.settings.master_password_hash = hash;
    }
}

// ---------------------------------------------------------------------------
// Laws
// ---------------------------------------------------------------------------

/// Stored settings are used as they are; a device without any keeps a hundred
/// clips, shows its window on CommandOrControl+Shift+C, follows the theme of the
/// system, and has no password and no blocked address.
pub proof fn stored_settings_are_used(stored: Option<AppSettings>, m: SettingsManager, r: AppSettings)
    requires
        call_ensures(SettingsManager::new, (stored,), m),
        call_ensures(SettingsManager::get, (&m,), r),
    ensures
        stored matches Some(s) ==> shows_same(s, r),
        stored is None ==> {
            &&& r.history_limit == 100
            &&& r.global_shortcut@ == "CommandOrControl+Shift+C"@
            &&& r.theme@ == "system"@
            &&& r.master_password_hash is None
            &&& r.blocked_ips@.len() == 0
        },
{
    if stored is Some {
        settings_are_their_fields(stored->0, r);
    } else {
        assert(text::texts(r.blocked_ips@).len() == 0);
    }
}

/// Whether two devices are set alike.
pub open spec fn shows_same(a: AppSettings, b: AppSettings) -> bool {
    &&& a.history_limit == b.history_limit
    &&& a.global_shortcut@ == b.global_shortcut@
    &&& a.theme@ == b.theme@
    &&& a.master_password_hash is Some <==> b.master_password_hash is Some
    &&& a.master_password_hash is Some ==> a.master_password_hash->0@ == b.master_password_hash->0@
    &&& a.blocked_ips@.len() == b.blocked_ips@.len()
    &&& forall|i: int| 0 <= i < a.blocked_ips@.len() ==> (#[trigger] a.blocked_ips@[i])@ == b.blocked_ips@[i]@
}

/// Settings that stand for the same have the same fields.
pub proof fn settings_are_their_fields(a: AppSettings, b: AppSettings)
    ensures
        a@ == b@ <==> shows_same(a, b),
{
    let x = text::texts(a.blocked_ips@);
    let y = text::texts(b.blocked_ips@);
    if a@ == b@ {
        assert(x.len() == y.len());
        assert forall|i: int| 0 <= i < a.blocked_ips@.len() implies (#[trigger] a.blocked_ips@[i])@ == b.blocked_ips@[i]@ by {
            assert(x[i] == y[i]);
        }
    }
    if shows_same(a, b) {
        assert forall|i: int| 0 <= i < x.len() implies x[i] == y[i] by {
            assert(x[i] == a.blocked_ips@[i]@);
        }
        assert(x =~= y);
    }
}

/// A limit that was set is the limit, whatever it is, and nothing else changes.
pub proof fn limit_is_kept(s: SettingsView, limit: i64)
    ensures
        s.with_limit(limit as int).history_limit == limit,
        s.with_limit(limit as int).global_shortcut == s.global_shortcut,
        s.with_limit(limit as int).theme == s.theme,
        s.with_limit(limit as int).master_password_hash == s.master_password_hash,
        s.with_limit(limit as int).blocked_ips == s.blocked_ips,
{
}

/// A shortcut or a theme that was set is kept as it is, and nothing else
/// changes.
pub proof fn choices_are_kept(s: SettingsView, chosen: Seq<char>)
    ensures
        s.with_shortcut(chosen).global_shortcut == chosen,
        s.with_shortcut(chosen).theme == s.theme,
        s.with_shortcut(chosen).history_limit == s.history_limit,
        s.with_shortcut(chosen).blocked_ips == s.blocked_ips,
        s.with_shortcut(chosen).master_password_hash == s.master_password_hash,
        s.with_theme(chosen).theme == chosen,
        s.with_theme(chosen).global_shortcut == s.global_shortcut,
        s.with_theme(chosen).history_limit == s.history_limit,
        s.with_theme(chosen).blocked_ips == s.blocked_ips,
        s.with_theme(chosen).master_password_hash == s.master_password_hash,
{
}

/// A blocked address is among the blocked ones, once more than before only if it
/// was not; every other address is blocked as it was, in its place.
pub proof fn blocking_blocks_one_address(s: SettingsView, ip: Seq<char>, other: Seq<char>)
    ensures
        s.blocking(ip).blocked_ips.contains(ip),
        other != ip ==> (s.blocking(ip).blocked_ips.contains(other) <==> s.blocked_ips.contains(other)),
        s.blocked_ips.contains(ip) ==> s.blocking(ip) == s,
        !s.blocked_ips.contains(ip) ==> s.blocking(ip).blocked_ips.len() == s.blocked_ips.len() + 1,
        forall|i: int| 0 <= i < s.blocked_ips.len() ==> #[trigger] s.blocking(ip).blocked_ips[i] == s.blocked_ips[i],
        s.blocked_ips.no_duplicates() ==> s.blocking(ip).blocked_ips.no_duplicates(),
        s.blocking(ip).history_limit == s.history_limit,
        s.blocking(ip).global_shortcut == s.global_shortcut,
        s.blocking(ip).theme == s.theme,
        s.blocking(ip).master_password_hash == s.master_password_hash,
{
    let before = s.blocked_ips;
    let after = s.blocking(ip).blocked_ips;
    if !before.contains(ip) {
        assert(after == before.push(ip));
        assert(after[before.len() as int] == ip);
        if before.contains(other) {
            let i = choose|i: int| 0 <= i < before.len() && before[i] == other;
            assert(after[i] == other);
        }
        if after.contains(other) && other != ip {
            let i = choose|i: int| 0 <= i < after.len() && after[i] == other;
            assert(before[i] == other);
        }
    }
}

/// Unblocking leaves no address blocked, and nothing else changes.
pub proof fn unblocking_unblocks_all(s: SettingsView, ip: Seq<char>)
    ensures
        !s.blocking_none().blocked_ips.contains(ip),
        s.blocking_none().history_limit == s.history_limit,
        s.blocking_none().global_shortcut == s.global_shortcut,
        s.blocking_none().theme == s.theme,
        s.blocking_none().master_password_hash == s.master_password_hash,
{
}

/// The digest of the master password is kept as it is given, or taken away, and
/// nothing else changes.
pub proof fn password_hash_is_kept(s: SettingsView, hash: Option<Seq<char>>)
    ensures
        s.with_password_hash(hash).master_password_hash == hash,
        s.with_password_hash(hash).history_limit == s.history_limit,
        s.with_password_hash(hash).global_shortcut == s.global_shortcut,
        s.with_password_hash(hash).theme == s.theme,
        s.with_password_hash(hash).blocked_ips == s.blocked_ips,
{
}

/// The blocked addresses are listed as they are in the settings.
pub proof fn blocked_addresses_are_listed(m: SettingsManager, s: AppSettings, r: Vec<String>, i: int)
    requires
        call_ensures(SettingsManager::get, (&m,), s),
        call_ensures(SettingsManager::get_blocked_ips, (&m,), r),
    ensures
        r@.len() == s.blocked_ips@.len(),
        0 <= i < r@.len() ==> r@[i]@ == s.blocked_ips@[i]@,
{
    let x = text::texts(r@);
    let y = text::texts(s.blocked_ips@);
    assert(x == y);
    assert(x.len() == r@.len() && y.len() == s.blocked_ips@.len());
    if 0 <= i < r@.len() {
        assert(x[i] == r@[i]@);
        assert(y[i] == s.blocked_ips@[i]@);
    }
}

} // verus!
