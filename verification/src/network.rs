//! The devices around, and what is done about what they say.
use crate::crypto::CryptoState;
use crate::discovery;
use crate::discovery::announced_text;
use crate::seqs;
use crate::tables;
use crate::tables::Clocks;
use crate::text;
use crate::text::{bytes_start_with, from_utf8_lossy, join, parse_i64, same, split};
use vstd::prelude::*;
use vstd::slice::slice_subrange;
use vstd::utf8::*;

verus! {

broadcast use vstd::seq_lib::group_seq_properties;

/// A device that has not been heard of for this many seconds is dropped.
pub const PEER_LIFETIME: i64 = 45;

/// A device is caught up with at most once in so many seconds.
pub const CATCHUP_PAUSE: i64 = 30;

/// The nanoseconds of a second.
pub const SECOND: i64 = 1_000_000_000;

/// A device around.
pub struct PeerInfo {
    pub ip: String,
    pub name: String,
}

/// What a device around stands for.
#[verifier::ext_equal]
pub struct PeerInfoView {
    pub ip: Seq<char>,
    pub name: Seq<char>,
}

impl View for PeerInfo {
    type V = PeerInfoView;

    open spec fn view(&self) -> PeerInfoView {
        PeerInfoView { ip: self.ip@, name: self.name@ }
    }
}

/// A device around, with the time at which it was last heard of.
struct Peer {
    ip: String,
    name: String,
    seen: i64,
}

/// What a device around stands for.
#[verifier::ext_equal]
pub struct PeerView {
    pub ip: Seq<char>,
    pub name: Seq<char>,
    pub seen: int,
}

impl View for Peer {
    type V = PeerView;

    closed spec fn view(&self) -> PeerView {
        PeerView { ip: self.ip@, name: self.name@, seen: self.seen as int }
    }
}

closed spec fn peer_views(v: Seq<Peer>) -> Seq<PeerView> {
    v.map_values(|p: Peer| p@)
}

/// The devices around, the blocked addresses, and when which address was last
/// caught up with. Times are nanoseconds of a clock that does not go back.
#[verifier::ext_equal]
pub struct NetView {
    pub instance_id: Seq<char>,
    pub peers: Seq<PeerView>,
    pub blocked: Seq<Seq<char>>,
    pub caught_up: Map<Seq<char>, int>,
}

/// What is to be done about a datagram.
#[verifier::ext_equal]
pub struct ReactionView {
    /// The sender is new: it gets our announcement.
    pub greet: bool,
    /// The device and the name to be noted as known.
    pub note: Option<(Seq<char>, Seq<char>)>,
    /// The sender is to be caught up with; it has followed up to this clock.
    pub catch_up: Option<int>,
    /// The address of the sender is newly blocked.
    pub block: bool,
}

/// What is to be done about a datagram.
pub struct Reaction {
    pub greet: bool,
    pub note: Option<(String, String)>,
    pub catch_up: Option<i64>,
    pub block: bool,
}

impl View for Reaction {
    type V = ReactionView;

    open spec fn view(&self) -> ReactionView {
        ReactionView {
            greet: self.greet,
            note: match self.note {
                Some(p) => Some((p.0@, p.1@)),
                None => None,
            },
            catch_up: tables::opt_int(self.catch_up),
            block: self.block,
        }
    }
}

/// Nothing is to be done.
pub open spec fn nothing() -> ReactionView {
    ReactionView { greet: false, note: None, catch_up: None, block: false }
}

/// The whole seconds between two times; none where the second is the earlier.
pub open spec fn seconds_since(then: int, now: int) -> int {
    if now >= then {
        (now - then) / (SECOND as int)
    } else {
        0
    }
}

/// Where the device with an address stands.
pub open spec fn peer_at(peers: Seq<PeerView>, ip: Seq<char>) -> Option<int> {
    if exists|i: int| 0 <= i < peers.len() && (#[trigger] peers[i]).ip == ip {
        Some(choose|i: int| 0 <= i < peers.len() && (#[trigger] peers[i]).ip == ip)
    } else {
        None
    }
}

/// No address occurs twice.
pub open spec fn peers_unique(peers: Seq<PeerView>) -> bool {
    forall|i: int, j: int| 0 <= i < j < peers.len() ==> (#[trigger] peers[i]).ip != (#[trigger] peers[j]).ip
}

/// The name in the pieces of an announcement. A name may hold colons. Old
/// announcements end with it, or leave it out.
pub open spec fn name_in(parts: Seq<Seq<char>>) -> Seq<char> {
    if parts.len() >= 6 {
        text::join_with(parts.subrange(3, parts.len() - 2), ':')
    } else if parts.len() > 3 {
        text::join_with(parts.subrange(3, parts.len() as int), ':')
    } else {
        "Unknown Device"@
    }
}

/// Whether an announcement is vouched for under a key.
pub open spec fn vouched_for(key: Seq<u8>, parts: Seq<Seq<char>>) -> bool {
    &&& parts.len() >= 6
    &&& parts.last() == discovery::tag_text(
        key,
        discovery::announced(parts[0], parts[1], parts[2], name_in(parts), parts[parts.len() - 2]),
    )
}

/// The clock in a vouched-for announcement; zero where it holds none.
pub open spec fn clock_in(parts: Seq<Seq<char>>) -> int {
    match text::signed_value(parts[parts.len() - 2]) {
        Some(n) => n,
        None => 0,
    }
}

impl NetView {
    /// What holds of the devices around.
    pub open spec fn wf(self) -> bool {
        peers_unique(self.peers) && self.blocked.no_duplicates()
    }

    /// Without the devices that have not been heard of for long.
    pub open spec fn pruned(self, now: int) -> NetView {
        NetView { peers: self.peers.filter(|p: PeerView| seconds_since(p.seen, now) < PEER_LIFETIME), ..self }
    }

    /// With a device heard of.
    pub open spec fn with_peer(self, ip: Seq<char>, name: Seq<char>, seen: int) -> NetView {
        let p = PeerView { ip, name, seen };
        match peer_at(self.peers, ip) {
            Some(i) => NetView { peers: self.peers.update(i, p), ..self },
            None => NetView { peers: self.peers.push(p), ..self },
        }
    }

    /// Without a device.
    pub open spec fn without_peer(self, ip: Seq<char>) -> NetView {
        NetView { peers: self.peers.filter(|p: PeerView| p.ip != ip), ..self }
    }

    /// With an address blocked.
    pub open spec fn with_block(self, ip: Seq<char>) -> NetView {
        if self.blocked.contains(ip) {
            self
        } else {
            NetView { blocked: self.blocked.push(ip), ..self }
        }
    }

    /// Whether an address is due to be caught up with.
    pub open spec fn due(self, ip: Seq<char>, now: int) -> bool {
        self.caught_up.dom().contains(ip) ==> seconds_since(self.caught_up[ip], now) > CATCHUP_PAUSE
    }

    /// What an announcement from an address leads to. One of another key, or of
    /// this device itself, leads to nothing; one from a blocked address only
    /// drops the devices that are gone.
    pub open spec fn announcement_heard(
        self,
        key: Seq<u8>,
        parts: Seq<Seq<char>>,
        ip: Seq<char>,
        now: int,
    ) -> (NetView, ReactionView) {
        if parts.len() < 3 || parts[0] != discovery::key_hash(key) || parts[1] == self.instance_id {
            (self, nothing())
        } else {
            let a = self.pruned(now);
            if a.blocked.contains(ip) {
                (a, nothing())
            } else {
                let b = a.with_peer(ip, name_in(parts), now);
                let heard = ReactionView {
                    greet: peer_at(a.peers, ip) is None,
                    note: Some((parts[1], name_in(parts))),
                    catch_up: None,
                    block: false,
                };
                if vouched_for(key, parts) && b.due(ip, now) {
                    (
                        NetView { caught_up: b.caught_up.insert(ip, now), ..b },
                        ReactionView { catch_up: Some(clock_in(parts)), ..heard },
                    )
                } else {
                    (b, heard)
                }
            }
        }
    }

    /// What a farewell from an address leads to: the device is dropped and its
    /// address blocked, if it has the same key.
    pub open spec fn farewell_heard(
        self,
        key: Seq<u8>,
        parts: Seq<Seq<char>>,
        ip: Seq<char>,
    ) -> (NetView, ReactionView) {
        if parts.len() < 3 || parts[0] != discovery::key_hash(key) {
            (self, nothing())
        } else {
            (
                self.without_peer(ip).with_block(ip),
                ReactionView { block: !self.blocked.contains(ip), ..nothing() },
            )
        }
    }

    /// What a datagram from an address leads to.
    pub open spec fn datagram_heard(
        self,
        key: Seq<u8>,
        data: Seq<u8>,
        ip: Seq<char>,
        now: int,
    ) -> (NetView, ReactionView) {
        let hello = encode_utf8("CIPHERCLIP_DISCOVER:"@);
        let bye = encode_utf8("CIPHERCLIP_DISCONNECT:"@);
        if data.len() > hello.len() && hello.is_prefix_of(data) {
            self.announcement_heard(key, text::split_on(text::utf8_lossy(data.skip(hello.len() as int)), ':'), ip, now)
        } else if data.len() > bye.len() && bye.is_prefix_of(data) {
            self.farewell_heard(key, text::split_on(text::utf8_lossy(data.skip(bye.len() as int)), ':'), ip)
        } else {
            (self, nothing())
        }
    }

    /// Without a device whose address is blocked from now on.
    pub open spec fn disconnected(self, ip: Seq<char>) -> NetView {
        self.without_peer(ip).with_block(ip)
    }

    /// With no address blocked.
    pub open spec fn unblocked(self) -> NetView {
        NetView { blocked: Seq::empty(), ..self }
    }

    /// With no device around.
    pub open spec fn alone(self) -> NetView {
        NetView { peers: Seq::empty(), ..self }
    }

    /// The devices around as they are listed.
    pub open spec fn listed(self) -> Seq<PeerInfoView> {
        self.peers.map_values(|p: PeerView| PeerInfoView { ip: p.ip, name: p.name })
    }

    /// With the time of a known device set.
    pub open spec fn touched(self, ip: Seq<char>, now: int) -> NetView {
        match peer_at(self.peers, ip) {
            Some(i) => NetView { peers: self.peers.update(i, PeerView { seen: now, ..self.peers[i] }), ..self },
            None => self,
        }
    }
}

proof fn filtered_peers_unique(peers: Seq<PeerView>, p: spec_fn(PeerView) -> bool)
    requires
        peers_unique(peers),
    ensures
        peers_unique(peers.filter(p)),
{
    let f = peers.filter(p);
    assert forall|i: int, j: int| 0 <= i < j < f.len() implies (#[trigger] f[i]).ip != (#[trigger] f[j]).ip by {
        let (a, b) = seqs::filter_keeps_order(peers, p, i, j);
        assert(peers[a].ip != peers[b].ip);
    }
}

/// The devices around.
pub struct NetworkManager {
    instance_id: String,
    peers: Vec<Peer>,
    blocked: Vec<String>,
    caught_up: Clocks,
}

impl View for NetworkManager {
    type V = NetView;

    closed spec fn view(&self) -> NetView {
        NetView {
            instance_id: self.instance_id@,
            peers: peer_views(self.peers@),
            blocked: text::texts(self.blocked@),
            caught_up: self.caught_up@,
        }
    }
}

fn whole_seconds_since(then: i64, now: i64) -> (r: i128)
    ensures
        r == seconds_since(then as int, now as int),
{
    if now >= then {
        (now as i128 - then as i128) / (SECOND as i128)
    } else {
        0
    }
}

fn lists(v: &Vec<String>, s: &str) -> (r: bool)
    ensures
        r == text::texts(v@).contains(s@),
{
    let mut i: usize = 0;
    while i < v.len()
        invariant
            i <= v@.len(),
            forall|j: int| 0 <= j < i ==> (#[trigger] text::texts(v@)[j]) != s@,
        decreases v@.len() - i,
    {
        if same(v[i].as_str(), s) {
            assert(text::texts(v@)[i as int] == s@);
            return true;
        }
        i += 1;
    }
    false
}

/// The texts of a list, each once, in the order in which they first come.
pub open spec fn each_once(s: Seq<Seq<char>>) -> Seq<Seq<char>>
    decreases s.len(),
{
    if s.len() == 0 {
        s
    } else {
        let front = each_once(s.drop_last());
        if front.contains(s.last()) {
            front
        } else {
            front.push(s.last())
        }
    }
}

impl NetworkManager {
    /// What holds of the devices around.
    pub closed spec fn wf(&self) -> bool {
        self@.wf() && self.caught_up.wf()
    }

    /// What holds of the devices around holds of what they stand for.
    pub proof fn wf_view(&self)
        requires
            self.wf(),
        ensures
            self@.wf(),
    {
    }

    /// No devices around; some addresses are blocked.
    pub fn new(instance_id: String, blocked_ips: Vec<String>) -> (r: NetworkManager)
        ensures
            r.wf(),
            r@ == (NetView {
                instance_id: instance_id@,
                peers: Seq::empty(),
                blocked: each_once(text::texts(blocked_ips@)),
                caught_up: Map::empty(),
            }),
    {
        let ghost all = text::texts(blocked_ips@);
        let mut blocked: Vec<String> = Vec::new();
        assert(text::texts(blocked@) =~= each_once(all.take(0)));
        for ip in it: blocked_ips.into_iter()
            invariant
                it.seq() == blocked_ips@,
                all == text::texts(blocked_ips@),
                text::texts(blocked@) == each_once(all.take(it.index() as int)),
                text::texts(blocked@).no_duplicates(),
        {
            let ghost i = it.index() as int;
            let ghost so_far = text::texts(blocked@);
            proof {
                assert(all[i] == ip@);
                assert(all.take(i + 1).drop_last() =~= all.take(i));
            }
            if !lists(&blocked, ip.as_str()) {
                blocked.push(ip);
                assert(text::texts(blocked@) =~= so_far.push(ip@));
            }
        }
        assert(all.take(all.len() as int) =~= all);
        let r = NetworkManager { instance_id, peers: Vec::new(), blocked, caught_up: Clocks::new() };
        assert(r@.peers =~= Seq::empty());
        r
    }

    /// The name of this device among the others.
    pub fn instance_id(&self) -> (r: &String)
        ensures
            r@ == self@.instance_id,
    {
        &self.instance_id
    }

    fn find_peer(&self, ip: &str) -> (r: Option<usize>)
        requires
            peers_unique(self@.peers),
        ensures
            match r {
                Some(i) => peer_at(self@.peers, ip@) == Some(i as int) && i < self.peers@.len()
                    && self@.peers[i as int].ip == ip@,
                None => peer_at(self@.peers, ip@) is None,
            },
    {
        let mut i: usize = 0;
        while i < self.peers.len()
            invariant
                peers_unique(self@.peers),
                i <= self.peers@.len(),
                forall|j: int| 0 <= j < i ==> (#[trigger] self@.peers[j]).ip != ip@,
            decreases self.peers@.len() - i,
        {
            assert(self@.peers[i as int] == self.peers@[i as int]@);
            if same(self.peers[i].ip.as_str(), ip) {
                proof {
                    let v = self@.peers;
                    assert(v[i as int].ip == ip@);
                    let k = choose|k: int| 0 <= k < v.len() && (#[trigger] v[k]).ip == ip@;
                    if k < i {
                        assert(v[k].ip != v[i as int].ip);
                    } else if i < k {
                        assert(v[i as int].ip != v[k].ip);
                    }
                }
                return Some(i);
            }
            i += 1;
        }
        None
    }

    fn prune(&mut self, now: i64)
        requires
            old(self).wf(),
        ensures
            final(self).wf(),
            final(self)@ == old(self)@.pruned(now as int),
    {
        let ghost before = *self;
        let ghost kept = |p: PeerView| seconds_since(p.seen, now as int) < PEER_LIFETIME;
        let mut all: Vec<Peer> = Vec::new();
        std::mem::swap(&mut all, &mut self.peers);
        proof {
            reveal(Seq::filter);
            assert(self@.peers =~= before@.peers.take(0).filter(kept));
        }
        for p in it: all.into_iter()
            invariant
                before == *old(self),
                it.seq() == before.peers@,
                kept == (|p: PeerView| seconds_since(p.seen, now as int) < PEER_LIFETIME),
                self.caught_up == before.caught_up,
                self@ == (NetView { peers: self@.peers, ..before@ }),
                self@.peers == before@.peers.take(it.index() as int).filter(kept),
        {
            let ghost i = it.index() as int;
            let ghost prior = self.peers@;
            proof {
                assert(before@.peers[i] == p@);
                seqs::filter_step(before@.peers, kept, i);
            }
            if whole_seconds_since(p.seen, now) < PEER_LIFETIME as i128 {
                self.peers.push(p);
                assert(self@.peers =~= peer_views(prior).push(p@));
            }
        }
        proof {
            assert(before@.peers.take(before@.peers.len() as int) =~= before@.peers);
            filtered_peers_unique(before@.peers, kept);
        }
    }

    fn drop_peer(&mut self, ip: &str)
        requires
            old(self).wf(),
        ensures
            final(self).wf(),
            final(self)@ == old(self)@.without_peer(ip@),
    {
        let ghost before = *self;
        let ghost kept = |p: PeerView| p.ip != ip@;
        let mut all: Vec<Peer> = Vec::new();
        std::mem::swap(&mut all, &mut self.peers);
        proof {
            reveal(Seq::filter);
            assert(self@.peers =~= before@.peers.take(0).filter(kept));
        }
        for p in it: all.into_iter()
            invariant
                before == *old(self),
                it.seq() == before.peers@,
                kept == (|p: PeerView| p.ip != ip@),
                self.caught_up == before.caught_up,
                self@ == (NetView { peers: self@.peers, ..before@ }),
                self@.peers == before@.peers.take(it.index() as int).filter(kept),
        {
            let ghost i = it.index() as int;
            let ghost prior = self.peers@;
            proof {
                assert(before@.peers[i] == p@);
                seqs::filter_step(before@.peers, kept, i);
            }
            if !same(p.ip.as_str(), ip) {
                self.peers.push(p);
                assert(self@.peers =~= peer_views(prior).push(p@));
            }
        }
        proof {
            assert(before@.peers.take(before@.peers.len() as int) =~= before@.peers);
            filtered_peers_unique(before@.peers, kept);
        }
    }

    fn put_peer(&mut self, ip: &str, name: &str, now: i64)
        requires
            old(self).wf(),
        ensures
            final(self).wf(),
            final(self)@ == old(self)@.with_peer(ip@, name@, now as int),
    {
        let ghost before = *self;
        let ghost v = PeerView { ip: ip@, name: name@, seen: now as int };
        let p = Peer { ip: ip.to_owned(), name: name.to_owned(), seen: now };
        match self.find_peer(ip) {
            Some(i) => {
                self.peers.set(i, p);
                assert(self@.peers =~= before@.peers.update(i as int, v));
            },
            None => {
                self.peers.push(p);
                proof {
                    assert(self@.peers =~= before@.peers.push(v));
                    let n = self@.peers;
                    assert forall|i: int, j: int| 0 <= i < j < n.len() implies (#[trigger] n[i]).ip != (
                    #[trigger] n[j]).ip by {
                        assert(n[i] == before@.peers[i]);
                        if j < n.len() - 1 {
                            assert(n[j] == before@.peers[j]);
                        }
                    }
                }
            },
        }
    }

    fn block(&mut self, ip: &str) -> (r: bool)
        requires
            old(self).wf(),
        ensures
            final(self).wf(),
            final(self)@ == old(self)@.with_block(ip@),
            r == !old(self)@.blocked.contains(ip@),
    {
        let ghost before = *self;
        if lists(&self.blocked, ip) {
            return false;
        }
        self.blocked.push(ip.to_owned());
        assert(self@.blocked =~= before@.blocked.push(ip@));
        true
    }

    /// Whether an address is blocked.
    pub fn is_blocked(&self, ip: &str) -> (r: bool)
        ensures
            r == self@.blocked.contains(ip@),
    {
        lists(&self.blocked, ip)
    }

    /// Takes note of an announcement from an address, and says what is to be
    /// done about it.
    pub fn hear_announcement(&mut self, crypto: &CryptoState, said: &str, ip: &str, now: i64) -> (r: Reaction)
        requires
            old(self).wf(),
        ensures
            final(self).wf(),
            (final(self)@, r@) == old(self)@.announcement_heard(crypto@, text::split_on(said@, ':'), ip@, now as int),
    {
        let parts = split(said, ':');
        let ghost p = text::texts(parts@);
        let n = parts.len();
        assert(p.len() == n);
        let quiet = Reaction { greet: false, note: None, catch_up: None, block: false };
        if n < 3 {
            return quiet;
        }
        assert(p[0] == parts@[0]@ && p[1] == parts@[1]@ && p[2] == parts@[2]@);
        if !same(parts[0].as_str(), crypto.get_sync_key_hash().as_str()) || same(
            parts[1].as_str(),
            self.instance_id.as_str(),
        ) {
            return quiet;
        }
        let name: String = if n >= 6 {
            join(&parts, 3, n - 2, ':')
        } else if n > 3 {
            join(&parts, 3, n, ':')
        } else {
            "Unknown Device".to_owned()
        };
        self.prune(now);
        if lists(&self.blocked, ip) {
            return quiet;
        }
        let greet = self.find_peer(ip).is_none();
        self.put_peer(ip, name.as_str(), now);
        let mut catch_up: Option<i64> = None;
        if n >= 6 {
            assert(p[n - 2] == parts@[n - 2]@ && p[n - 1] == parts@[n - 1]@);
            let hlc = parts[n - 2].as_str();
            let words = announced_text(parts[0].as_str(), parts[1].as_str(), parts[2].as_str(), name.as_str(), hlc);
            let tag = crypto.generate_sync_state_mac(words.as_str());
            if same(tag.as_str(), parts[n - 1].as_str()) {
                let due = match self.caught_up.get(ip) {
                    Some(last) => whole_seconds_since(last, now) > CATCHUP_PAUSE as i128,
                    None => true,
                };
                if due {
                    self.caught_up.insert(ip.to_owned(), now);
                    catch_up = Some(
                        match parse_i64(hlc) {
                            Some(v) => v,
                            None => 0,
                        },
                    );
                }
            }
        }
        Reaction { greet, note: Some((parts[1].clone(), name)), catch_up, block: false }
    }

    /// Takes note of a farewell from an address, and says what is to be done
    /// about it.
    pub fn hear_farewell(&mut self, crypto: &CryptoState, said: &str, ip: &str) -> (r: Reaction)
        requires
            old(self).wf(),
        ensures
            final(self).wf(),
            (final(self)@, r@) == old(self)@.farewell_heard(crypto@, text::split_on(said@, ':'), ip@),
    {
        let parts = split(said, ':');
        let ghost p = text::texts(parts@);
        assert(p.len() == parts@.len());
        let mut reaction = Reaction { greet: false, note: None, catch_up: None, block: false };
        if parts.len() < 3 {
            return reaction;
        }
        assert(p[0] == parts@[0]@);
        if !same(parts[0].as_str(), crypto.get_sync_key_hash().as_str()) {
            return reaction;
        }
        self.drop_peer(ip);
        let block = self.block(ip);
        reaction.block = block;
        reaction
    }

    /// Takes note of a datagram from an address, and says what is to be done
    /// about it.
    pub fn on_datagram(&mut self, crypto: &CryptoState, data: &[u8], ip: &str, now: i64) -> (r: Reaction)
        requires
            old(self).wf(),
        ensures
            final(self).wf(),
            (final(self)@, r@) == old(self)@.datagram_heard(crypto@, data@, ip@, now as int),
    {
        let hello = "CIPHERCLIP_DISCOVER:".as_bytes();
        let bye = "CIPHERCLIP_DISCONNECT:".as_bytes();
        if data.len() > hello.len() && bytes_start_with(data, hello) {
            let said = from_utf8_lossy(slice_subrange(data, hello.len(), data.len()));
            assert(data@.subrange(hello@.len() as int, data@.len() as int) =~= data@.skip(hello@.len() as int));
            self.hear_announcement(crypto, said.as_str(), ip, now)
        } else if data.len() > bye.len() && bytes_start_with(data, bye) {
            let said = from_utf8_lossy(slice_subrange(data, bye.len(), data.len()));
            assert(data@.subrange(bye@.len() as int, data@.len() as int) =~= data@.skip(bye@.len() as int));
            self.hear_farewell(crypto, said.as_str(), ip)
        } else {
            Reaction { greet: false, note: None, catch_up: None, block: false }
        }
    }

    /// Takes note that a known device was heard of.
    pub fn touch(&mut self, ip: &str, now: i64)
        requires
            old(self).wf(),
        ensures
            final(self).wf(),
            final(self)@ == old(self)@.touched(ip@, now as int),
    {
        let ghost before = *self;
        match self.find_peer(ip) {
            Some(i) => {
                assert(before@.peers[i as int] == before.peers@[i as int]@);
                self.peers[i].seen = now;
                proof {
                    assert(self@.peers[i as int] == (PeerView { seen: now as int, ..before@.peers[i as int] }));
                    assert(self@.peers =~= before@.touched(ip@, now as int).peers);
                }
            },
            None => {},
        }
    }

    /// The addresses of the devices around.
    pub fn peer_ips(&self) -> (r: Vec<String>)
        ensures
            text::texts(r@) == self@.peers.map_values(|p: PeerView| p.ip),
    {
        let ghost f = |p: PeerView| p.ip;
        let mut out: Vec<String> = Vec::new();
        let mut i: usize = 0;
        assert(text::texts(out@) =~= self@.peers.take(0).map_values(f));
        while i < self.peers.len()
            invariant
                i <= self.peers@.len(),
                f == (|p: PeerView| p.ip),
                text::texts(out@) == self@.peers.take(i as int).map_values(f),
            decreases self.peers@.len() - i,
        {
            let ghost so_far = text::texts(out@);
            out.push(self.peers[i].ip.clone());
            proof {
                assert(self@.peers[i as int] == self.peers@[i as int]@);
                assert(text::texts(out@) =~= so_far.push(self@.peers[i as int].ip));
                assert(self@.peers.take(i as int + 1).map_values(f) =~= so_far.push(self@.peers[i as int].ip));
            }
            i += 1;
        }
        assert(self@.peers.take(i as int) =~= self@.peers);
        out
    }

    /// The devices around, after those that are gone were dropped.
    pub fn get_connected_peers(&mut self, now: i64) -> (r: Vec<PeerInfo>)
        requires
            old(self).wf(),
        ensures
            final(self).wf(),
            final(self)@ == old(self)@.pruned(now as int),
            r@.map_values(|p: PeerInfo| p@) == final(self)@.peers.map_values(
                |p: PeerView| PeerInfoView { ip: p.ip, name: p.name },
            ),
            r@.map_values(|p: PeerInfo| p@) == old(self)@.pruned(now as int).listed(),
    {
        self.prune(now);
        let ghost f = |p: PeerView| PeerInfoView { ip: p.ip, name: p.name };
        let ghost g = |p: PeerInfo| p@;
        let mut out: Vec<PeerInfo> = Vec::new();
        let mut i: usize = 0;
        assert(out@.map_values(g) =~= self@.peers.take(0).map_values(f));
        while i < self.peers.len()
            invariant
                i <= self.peers@.len(),
                f == (|p: PeerView| PeerInfoView { ip: p.ip, name: p.name }),
                g == (|p: PeerInfo| p@),
                out@.map_values(g) == self@.peers.take(i as int).map_values(f),
                self.wf(),
                self@ == old(self)@.pruned(now as int),
            decreases self.peers@.len() - i,
        {
            let ghost so_far = out@.map_values(g);
            let p = PeerInfo { ip: self.peers[i].ip.clone(), name: self.peers[i].name.clone() };
            let ghost v = p@;
            out.push(p);
            proof {
                assert(self@.peers[i as int] == self.peers@[i as int]@);
                assert(out@.map_values(g) =~= so_far.push(v));
                assert(self@.peers.take(i as int + 1).map_values(f) =~= so_far.push(v));
            }
            i += 1;
        }
        assert(self@.peers.take(i as int) =~= self@.peers);
        out
    }

    /// Drops a device and blocks its address. Says whether the address was not
    /// blocked before.
    pub fn disconnect_peer(&mut self, ip: &str) -> (r: bool)
        requires
            old(self).wf(),
        ensures
            final(self).wf(),
            final(self)@ == old(self)@.without_peer(ip@).with_block(ip@),
            final(self)@ == old(self)@.disconnected(ip@),
            r == !old(self)@.blocked.contains(ip@),
    {
        self.drop_peer(ip);
        self.block(ip)
    }

    /// Unblocks every address.
    pub fn clear_blocks(&mut self)
        requires
            old(self).wf(),
        ensures
            final(self).wf(),
            final(self)@ == (NetView { blocked: Seq::empty(), ..old(self)@ }),
            final(self)@ == old(self)@.unblocked(),
    {
        self.blocked.clear();
        assert(self@.blocked =~= Seq::empty());
    }

    /// Forgets the devices around.
    pub fn clear_peers(&mut self)
        requires
            old(self).wf(),
        ensures
            final(self).wf(),
            final(self)@ == (NetView { peers: Seq::empty(), ..old(self)@ }),
            final(self)@ == old(self)@.alone(),
    {
        self.peers.clear();
        assert(self@.peers =~= Seq::empty());
    }
}

// ---------------------------------------------------------------------------
// Laws
// ---------------------------------------------------------------------------

/// What follows the first word of an announcement.
spec fn announced_rest(
    key: Seq<u8>,
    instance_id: Seq<char>,
    ip: Seq<char>,
    name: Seq<char>,
    hlc: int,
) -> Seq<char> {
    let body = discovery::colon(
        discovery::colon(
            discovery::colon(discovery::colon(discovery::key_hash(key), instance_id), ip),
            name,
        ),
        discovery::clock_text(hlc),
    );
    discovery::colon(body, discovery::tag_text(key, "CIPHERCLIP_DISCOVER:"@ + body))
}

proof fn announcement_parts(key: Seq<u8>, instance_id: Seq<char>, ip: Seq<char>, name: Seq<char>, hlc: int)
    requires
        !instance_id.contains(':'),
        !ip.contains(':'),
    ensures
        ({
            let hash = discovery::key_hash(key);
            let clock = discovery::clock_text(hlc);
            let said = discovery::announced(hash, instance_id, ip, name, clock);
            text::split_on(announced_rest(key, instance_id, ip, name, hlc), ':') == seq![hash, instance_id, ip]
                + text::split_on(name, ':') + seq![clock, discovery::tag_text(key, said)]
        }),
{
    let hash = discovery::key_hash(key);
    let clock = discovery::clock_text(hlc);
    let a = discovery::colon(hash, instance_id);
    let b = discovery::colon(a, ip);
    let c = discovery::colon(b, name);
    let d = discovery::colon(c, clock);
    let tag = discovery::tag_text(key, "CIPHERCLIP_DISCOVER:"@ + d);
    crate::primitives::hex_text_has_no_colon(crate::primitives::sha256_digest(key));
    crate::primitives::hex_text_has_no_colon(
        crate::crypto::sync_state_tag(key, "CIPHERCLIP_DISCOVER:"@ + d),
    );
    if hlc > 0 {
        text::decimal_reads_back(hlc as nat);
    }
    text::split_undoes_join(seq![hash], ':');
    text::split_on_separator(hash, instance_id, ':');
    text::split_on_separator(a, ip, ':');
    text::split_on_concat(b, name, ':');
    text::split_on_separator(c, clock, ':');
    text::split_on_separator(d, tag, ':');
    assert(text::split_on(hash, ':') =~= seq![hash]);
    assert(text::split_on(b, ':') =~= seq![hash, instance_id, ip]);
    assert(text::split_on(discovery::colon(d, tag), ':') =~= seq![hash, instance_id, ip] + text::split_on(name, ':')
        + seq![clock, tag]);
}

/// A datagram with a word in front is read as what follows the word.
proof fn word_is_taken_off(word: Seq<char>, rest: Seq<char>)
    requires
        rest.len() > 0,
    ensures
        ({
            let data = encode_utf8(word + rest);
            let front = encode_utf8(word);
            &&& data.len() > front.len()
            &&& front.is_prefix_of(data)
            &&& data.take(front.len() as int) == front
            &&& text::utf8_lossy(data.skip(front.len() as int)) == rest
        }),
{
    let data = encode_utf8(word + rest);
    let front = encode_utf8(word);
    text::encoding_joins(word, rest);
    text::encoding_is_not_empty(rest);
    assert(data.take(front.len() as int) =~= front);
    assert(data.subrange(0, front.len() as int) =~= front);
    assert(data.skip(front.len() as int) =~= encode_utf8(rest));
    encode_utf8_valid_utf8(rest);
    encode_utf8_decode_utf8(rest);
}

/// The pieces of an announcement say what was announced.
proof fn pieces_say_what_was_announced(key: Seq<u8>, instance_id: Seq<char>, ip: Seq<char>, name: Seq<char>, hlc: int)
    requires
        !instance_id.contains(':'),
        !ip.contains(':'),
        hlc <= i64::MAX,
    ensures
        ({
            let parts = text::split_on(announced_rest(key, instance_id, ip, name, hlc), ':');
            &&& parts.len() >= 3
            &&& parts[0] == discovery::key_hash(key)
            &&& parts[1] == instance_id
            &&& name_in(parts) == name
            &&& vouched_for(key, parts)
            &&& clock_in(parts) == if hlc > 0 {
                hlc
            } else {
                0
            }
        }),
{
    announcement_parts(key, instance_id, ip, name, hlc);
    let parts = text::split_on(announced_rest(key, instance_id, ip, name, hlc), ':');
    text::split_on_pieces(name, ':');
    let n = parts.len() as int;
    assert(parts.subrange(3, n - 2) =~= text::split_on(name, ':'));
    text::join_undoes_split(name, ':');
    assert(name_in(parts) == name);
    assert(parts[n - 2] == discovery::clock_text(hlc));
    if hlc > 0 {
        text::decimal_parses_back(hlc as nat);
    }
}

/// A device that was heard of is around under its address, with its name.
proof fn heard_device_is_around(net: NetView, ip: Seq<char>, name: Seq<char>, now: int)
    requires
        peers_unique(net.peers),
    ensures
        ({
            let b = net.with_peer(ip, name, now);
            peer_at(b.peers, ip) matches Some(i) && b.peers[i] == (PeerView { ip, name, seen: now })
        }),
{
    let b = net.with_peer(ip, name, now);
    let at = match peer_at(net.peers, ip) {
        Some(i) => i,
        None => net.peers.len() as int,
    };
    assert(b.peers[at] == (PeerView { ip, name, seen: now }));
    assert(peer_at(b.peers, ip) is Some);
    let k = peer_at(b.peers, ip)->0;
    if k != at {
        assert(b.peers[k] == net.peers[k]);
        if at < net.peers.len() {
            if k < at {
                assert(net.peers[k].ip != net.peers[at].ip);
            } else {
                assert(net.peers[at].ip != net.peers[k].ip);
            }
        }
    }
}

/// An announcement is understood by a device with the same key: the sender is
/// then around under the address it came from, with the name it gave; it is
/// noted as known; and if it is due, it is caught up with from the clock it
/// gave. The name may hold colons, the other parts may not.
pub proof fn announcement_is_understood(
    net: NetView,
    key: Seq<u8>,
    instance_id: Seq<char>,
    said_ip: Seq<char>,
    name: Seq<char>,
    hlc: int,
    ip: Seq<char>,
    now: int,
)
    requires
        net.wf(),
        !instance_id.contains(':'),
        !said_ip.contains(':'),
        instance_id != net.instance_id,
        !net.blocked.contains(ip),
        hlc <= i64::MAX,
    ensures
        ({
            let data = encode_utf8(discovery::announcement(key, instance_id, said_ip, name, hlc));
            let (a, r) = net.datagram_heard(key, data, ip, now);
            &&& peer_at(a.peers, ip) matches Some(i) && a.peers[i] == (PeerView { ip, name, seen: now })
            &&& r.greet == (peer_at(net.pruned(now).peers, ip) is None)
            &&& r.note == Some((instance_id, name))
            &&& r.catch_up == (if net.due(ip, now) {
                Some(if hlc > 0 {
                    hlc
                } else {
                    0
                })
            } else {
                None
            })
        }),
{
    let word = "CIPHERCLIP_DISCOVER:"@;
    let rest = announced_rest(key, instance_id, said_ip, name, hlc);
    let message = discovery::announcement(key, instance_id, said_ip, name, hlc);
    assert(message =~= word + rest);
    word_is_taken_off(word, rest);
    pieces_say_what_was_announced(key, instance_id, said_ip, name, hlc);
    let parts = text::split_on(rest, ':');
    assert(net.datagram_heard(key, encode_utf8(message), ip, now) == net.announcement_heard(key, parts, ip, now));
    filtered_peers_unique(net.peers, |p: PeerView| seconds_since(p.seen, now) < PEER_LIFETIME);
    heard_device_is_around(net.pruned(now), ip, name, now);
}

/// No farewell is taken for an announcement.
proof fn farewells_are_no_announcements(rest: Seq<char>)
    requires
        rest.len() > 0,
    ensures
        !encode_utf8("CIPHERCLIP_DISCOVER:"@).is_prefix_of(encode_utf8("CIPHERCLIP_DISCONNECT:"@ + rest)),
{
    let hello_text = "CIPHERCLIP_DISCOVER:"@;
    let bye_text = "CIPHERCLIP_DISCONNECT:"@;
    let hello = encode_utf8(hello_text);
    let bye = encode_utf8(bye_text);
    let data = encode_utf8(bye_text + rest);
    word_is_taken_off(bye_text, rest);
    reveal_strlit("CIPHERCLIP_DISCOVER:");
    reveal_strlit("CIPHERCLIP_DISCONNECT:");
    assert(is_ascii_chars(hello_text));
    assert(is_ascii_chars(bye_text));
    is_ascii_chars_encode_utf8(hello_text);
    is_ascii_chars_encode_utf8(bye_text);
    assert(hello[16] != bye[16]);
    assert(data.take(bye.len() as int)[16] == data[16]);
    if hello.is_prefix_of(data) {
        assert(hello == data.subrange(0, hello.len() as int));
        assert(hello[16] == data[16]);
    }
}

proof fn farewell_starts_with_the_key(key: Seq<u8>, instance_id: Seq<char>, said_ip: Seq<char>)
    ensures
        ({
            let hash = discovery::key_hash(key);
            let parts = text::split_on(discovery::colon(discovery::colon(hash, instance_id), said_ip), ':');
            parts.len() >= 3 && parts[0] == hash
        }),
{
    let hash = discovery::key_hash(key);
    crate::primitives::hex_text_has_no_colon(crate::primitives::sha256_digest(key));
    text::split_undoes_join(seq![hash], ':');
    text::split_on_concat(hash, instance_id, ':');
    text::split_on_concat(discovery::colon(hash, instance_id), said_ip, ':');
    text::split_on_pieces(instance_id, ':');
    text::split_on_pieces(said_ip, ':');
    assert(text::split_on(hash, ':') =~= seq![hash]);
    let parts = text::split_on(discovery::colon(discovery::colon(hash, instance_id), said_ip), ':');
    assert(parts[0] == hash);
}

/// A farewell is understood by a device with the same key: the sender is no
/// longer around, and the address it came from is blocked.
pub proof fn farewell_is_understood(
    net: NetView,
    key: Seq<u8>,
    instance_id: Seq<char>,
    said_ip: Seq<char>,
    ip: Seq<char>,
    now: int,
)
    ensures
        ({
            let data = encode_utf8(discovery::farewell(key, instance_id, said_ip));
            let (a, r) = net.datagram_heard(key, data, ip, now);
            &&& peer_at(a.peers, ip) is None
            &&& a.blocked.contains(ip)
            &&& r.block == !net.blocked.contains(ip)
        }),
{
    let word = "CIPHERCLIP_DISCONNECT:"@;
    let rest = discovery::colon(discovery::colon(discovery::key_hash(key), instance_id), said_ip);
    let message = discovery::farewell(key, instance_id, said_ip);
    assert(message =~= word + rest);
    word_is_taken_off(word, rest);
    farewells_are_no_announcements(rest);
    farewell_starts_with_the_key(key, instance_id, said_ip);
    let parts = text::split_on(rest, ':');
    assert(net.datagram_heard(key, encode_utf8(message), ip, now) == net.farewell_heard(key, parts, ip));
    let kept = |p: PeerView| p.ip != ip;
    let a = net.without_peer(ip);
    assert forall|i: int| 0 <= i < a.peers.len() implies (#[trigger] a.peers[i]).ip != ip by {
        let k = seqs::filter_origin(net.peers, kept, i);
    }
    assert(a.with_block(ip).blocked.contains(ip)) by {
        if !net.blocked.contains(ip) {
            assert(a.with_block(ip).blocked[net.blocked.len() as int] == ip);
        }
    }
}

// ---------------------------------------------------------------------------
// Devices, one by one
// ---------------------------------------------------------------------------

/// A device is still around while less than 45 seconds have gone by since it was
/// last heard of; what is known of it does not change, nor does anything else.
pub proof fn devices_stay_around_for_a_while(net: NetView, now: int, p: PeerView)
    ensures
        ({
            let a = net.pruned(now);
            &&& a == (NetView { peers: a.peers, ..net })
            &&& a.peers.contains(p) <==> net.peers.contains(p) && now - p.seen < 45_000_000_000
        }),
{
    let kept = |p: PeerView| seconds_since(p.seen, now) < PEER_LIFETIME;
    seqs::filter_membership(net.peers, kept, p);
}

/// The devices that are listed are those that are still around, each under its
/// own address and name.
pub proof fn listed_devices_are_around(net: NetView, now: int, k: int)
    requires
        0 <= k < net.pruned(now).listed().len(),
    ensures
        exists|i: int|
            0 <= i < net.peers.len() && now - (#[trigger] net.peers[i]).seen < 45_000_000_000 && net.peers[i].ip
                == net.pruned(now).listed()[k].ip && net.peers[i].name == net.pruned(now).listed()[k].name,
{
    let kept = |p: PeerView| seconds_since(p.seen, now) < PEER_LIFETIME;
    let i = seqs::filter_origin(net.peers, kept, k);
    assert(net.peers[i].ip == net.pruned(now).listed()[k].ip);
}

/// A device that is still around is listed.
pub proof fn devices_around_are_listed(net: NetView, now: int, i: int)
    requires
        0 <= i < net.peers.len(),
        now - net.peers[i].seen < 45_000_000_000,
    ensures
        net.pruned(now).listed().contains(PeerInfoView { ip: net.peers[i].ip, name: net.peers[i].name }),
{
    let kept = |p: PeerView| seconds_since(p.seen, now) < PEER_LIFETIME;
    let k = seqs::filter_keeps(net.peers, kept, i);
    assert(net.pruned(now).listed()[k] == (PeerInfoView { ip: net.peers[i].ip, name: net.peers[i].name }));
}

/// The addresses of the devices around are theirs, one for each, in their order.
pub proof fn addresses_are_those_of_the_devices(net: NetworkManager, r: Vec<String>, i: int)
    requires
        call_ensures(NetworkManager::peer_ips, (&net,), r),
    ensures
        r@.len() == net@.peers.len(),
        0 <= i < r@.len() ==> r@[i]@ == net@.peers[i].ip,
{
    assert(text::texts(r@).len() == r@.len());
    if 0 <= i < r@.len() {
        assert(text::texts(r@)[i] == r@[i]@);
    }
}

/// Disconnecting a device takes the one under that address away and blocks the
/// address. Every other device stays, with its name and the time at which it was
/// last heard of, and none comes; no other address is blocked or unblocked.
pub proof fn disconnecting_takes_one_device(net: NetView, ip: Seq<char>, p: PeerView, other: Seq<char>)
    ensures
        ({
            let a = net.disconnected(ip);
            &&& a == (NetView { peers: a.peers, blocked: a.blocked, ..net })
            &&& a.peers.contains(p) <==> net.peers.contains(p) && p.ip != ip
            &&& a.blocked.contains(other) <==> net.blocked.contains(other) || other == ip
        }),
{
    let a = net.disconnected(ip);
    seqs::filter_membership(net.peers, |p: PeerView| p.ip != ip, p);
    if !net.blocked.contains(ip) {
        let n = net.blocked.len() as int;
        assert(a.blocked[n] == ip);
        if net.blocked.contains(other) {
            let k = choose|k: int| 0 <= k < net.blocked.len() && net.blocked[k] == other;
            assert(a.blocked[k] == other);
        }
        if a.blocked.contains(other) {
            let k = choose|k: int| 0 <= k < a.blocked.len() && a.blocked[k] == other;
            if k < n {
                assert(net.blocked[k] == other);
            }
        }
    }
}

/// A farewell from an address takes the device under that address away and
/// blocks the address, and touches no other device; one of another key does
/// nothing. Nobody is greeted, noted or caught up with.
pub proof fn farewell_takes_one_device(
    net: NetView,
    key: Seq<u8>,
    parts: Seq<Seq<char>>,
    ip: Seq<char>,
    p: PeerView,
    other: Seq<char>,
)
    ensures
        ({
            let (a, r) = net.farewell_heard(key, parts, ip);
            let meant = parts.len() >= 3 && parts[0] == crate::primitives::hex_text(
                crate::primitives::sha256_digest(key),
            );
            &&& a == (NetView { peers: a.peers, blocked: a.blocked, ..net })
            &&& meant ==> (a.peers.contains(p) <==> net.peers.contains(p) && p.ip != ip)
            &&& meant ==> (a.blocked.contains(other) <==> net.blocked.contains(other) || other == ip)
            &&& meant ==> (r.block <==> !net.blocked.contains(ip))
            &&& !meant ==> a == net && !r.block
            &&& !r.greet && r.note is None && r.catch_up is None
        }),
{
    disconnecting_takes_one_device(net, ip, p, other);
}

/// An announcement from an address puts the device there, under the name it gave
/// and the time it was heard, unless it is of another key or of this device
/// itself, or the address is blocked. Every other device stays as long as it is
/// around, and none comes.
pub proof fn announcement_adds_one_device(
    net: NetView,
    key: Seq<u8>,
    parts: Seq<Seq<char>>,
    ip: Seq<char>,
    now: int,
    p: PeerView,
)
    requires
        net.wf(),
    ensures
        ({
            let (a, r) = net.announcement_heard(key, parts, ip, now);
            let meant = parts.len() >= 3 && parts[0] == crate::primitives::hex_text(
                crate::primitives::sha256_digest(key),
            ) && parts[1] != net.instance_id;
            let blocked = net.blocked.contains(ip);
            &&& a == (NetView { peers: a.peers, caught_up: a.caught_up, ..net })
            &&& !meant ==> a == net
            &&& !meant || blocked ==> !r.greet && r.note is None && r.catch_up is None && a.caught_up == net.caught_up
            &&& meant && (blocked || p.ip != ip) ==> (a.peers.contains(p) <==> net.peers.contains(p) && now - p.seen
                < 45_000_000_000)
            &&& meant && !blocked && p.ip == ip ==> (a.peers.contains(p) <==> p.name == name_in(parts) && p.seen == now)
            &&& meant && !blocked ==> r.note == Some((parts[1], name_in(parts)))
            &&& meant && !blocked ==> (!r.greet <==> exists|i: int|
                0 <= i < net.peers.len() && (#[trigger] net.peers[i]).ip == ip && now - net.peers[i].seen
                    < 45_000_000_000)
            &&& !r.block
        }),
{
    let (a, r) = net.announcement_heard(key, parts, ip, now);
    let b = net.pruned(now);
    let kept = |p: PeerView| seconds_since(p.seen, now) < PEER_LIFETIME;
    devices_stay_around_for_a_while(net, now, p);
    filtered_peers_unique(net.peers, kept);
    let name = name_in(parts);
    let c = b.with_peer(ip, name, now);
    let row = PeerView { ip, name, seen: now };
    let n = match peer_at(b.peers, ip) {
        Some(i) => i,
        None => b.peers.len() as int,
    };
    assert(c.peers[n] == row);
    if c.peers.contains(p) {
        let k = choose|k: int| 0 <= k < c.peers.len() && c.peers[k] == p;
        if k != n {
            assert(c.peers[k] == b.peers[k]);
            if n < b.peers.len() {
                if k < n {
                    assert(b.peers[k].ip != b.peers[n].ip);
                } else {
                    assert(b.peers[n].ip != b.peers[k].ip);
                }
            }
        }
    }
    if b.peers.contains(p) && p.ip != ip {
        let k = choose|k: int| 0 <= k < b.peers.len() && b.peers[k] == p;
        assert(c.peers[k] == p);
    }
    if peer_at(b.peers, ip) is Some {
        let i = seqs::filter_origin(net.peers, kept, n);
        assert(net.peers[i].ip == ip);
    }
    if exists|i: int|
        0 <= i < net.peers.len() && (#[trigger] net.peers[i]).ip == ip && now - net.peers[i].seen < 45_000_000_000 {
        let i = choose|i: int|
            0 <= i < net.peers.len() && (#[trigger] net.peers[i]).ip == ip && now - net.peers[i].seen < 45_000_000_000;
        let k = seqs::filter_keeps(net.peers, kept, i);
        assert(b.peers[k].ip == ip);
    }
}

/// A device is caught up with if it is vouched for, its address is not blocked,
/// and it was not caught up with in the last thirty seconds; that is then noted,
/// for this address and no other.
pub proof fn catching_up_is_paced(
    net: NetView,
    key: Seq<u8>,
    parts: Seq<Seq<char>>,
    ip: Seq<char>,
    now: int,
    other: Seq<char>,
)
    requires
        parts.len() >= 6,
        parts[0] == crate::primitives::hex_text(crate::primitives::sha256_digest(key)),
        parts[1] != net.instance_id,
        !net.blocked.contains(ip),
    ensures
        ({
            let (a, r) = net.announcement_heard(key, parts, ip, now);
            let n = parts.len() as int;
            let words = discovery::announced(parts[0], parts[1], parts[2], name_in(parts), parts[n - 2]);
            let rested = net.caught_up.dom().contains(ip) ==> now - net.caught_up[ip] >= 31_000_000_000;
            &&& r.catch_up is Some <==> rested && parts[n - 1] == crate::primitives::hex_text(
                crate::crypto::sync_state_tag(key, words),
            )
            &&& r.catch_up is Some ==> a.caught_up.dom().contains(ip) && a.caught_up[ip] == now
            &&& r.catch_up is None ==> a.caught_up == net.caught_up
            &&& other != ip ==> (a.caught_up.dom().contains(other) <==> net.caught_up.dom().contains(other))
            &&& other != ip && net.caught_up.dom().contains(other) ==> a.caught_up[other] == net.caught_up[other]
        }),
{
}

/// The name in an announcement: what stands between the address and the clock;
/// in one without clock and tag all that stands behind the address; and in one
/// without a name it is said that the device is unknown.
pub proof fn announced_names(parts: Seq<Seq<char>>)
    ensures
        parts.len() == 3 ==> name_in(parts) == "Unknown Device"@,
        parts.len() == 4 ==> name_in(parts) == parts[3],
        parts.len() == 5 ==> name_in(parts) == parts[3].push(':') + parts[4],
        parts.len() == 6 ==> name_in(parts) == parts[3],
        parts.len() == 7 ==> name_in(parts) == parts[3].push(':') + parts[4],
{
    reveal_with_fuel(text::join_with, 3);
    if parts.len() >= 4 {
        let one = seq![parts[3]];
        assert(parts.len() == 4 ==> parts.subrange(3, 4) =~= one);
        assert(parts.len() == 6 ==> parts.subrange(3, 4) =~= one);
        if parts.len() == 5 || parts.len() == 7 {
            let two = parts.subrange(3, 5);
            assert(two.drop_last() =~= one);
            assert(two.last() == parts[4]);
            assert(two.drop_first() =~= seq![parts[4]]);
            assert(two[0] == parts[3]);
        }
    }
}

/// A device that is heard of otherwise keeps its name and is around for longer;
/// nothing else changes, and one that is not around does not come.
pub proof fn touching_renews_one_device(net: NetView, ip: Seq<char>, now: int, i: int)
    requires
        net.wf(),
        0 <= i < net.peers.len(),
    ensures
        ({
            let a = net.touched(ip, now);
            &&& a == (NetView { peers: a.peers, ..net })
            &&& a.peers.len() == net.peers.len()
            &&& a.peers[i].ip == net.peers[i].ip && a.peers[i].name == net.peers[i].name
            &&& a.peers[i].seen == if net.peers[i].ip == ip {
                now
            } else {
                net.peers[i].seen
            }
        }),
{
    if peer_at(net.peers, ip) is Some {
        let k = peer_at(net.peers, ip)->0;
        if net.peers[i].ip == ip && i != k {
            if i < k {
                assert(net.peers[i].ip != net.peers[k].ip);
            } else {
                assert(net.peers[k].ip != net.peers[i].ip);
            }
        }
    } else {
        assert(net.peers[i].ip != ip);
    }
}

/// A datagram that starts with neither word does nothing.
pub proof fn other_datagrams_do_nothing(net: NetView, key: Seq<u8>, data: Seq<u8>, ip: Seq<char>, now: int)
    requires
        !encode_utf8("CIPHERCLIP_DISCOVER:"@).is_prefix_of(data),
        !encode_utf8("CIPHERCLIP_DISCONNECT:"@).is_prefix_of(data),
    ensures
        ({
            let (a, r) = net.datagram_heard(key, data, ip, now);
            a == net && !r.greet && r.note is None && r.catch_up is None && !r.block
        }),
{
}

/// A new device has nobody around it, and the addresses given are blocked, each
/// once. Unblocking and forgetting all touch nothing else.
pub proof fn blocked_addresses_are_those_given(net: NetView, given: Seq<Seq<char>>, ip: Seq<char>)
    ensures
        each_once(given).contains(ip) <==> given.contains(ip),
        each_once(given).no_duplicates(),
        net.unblocked() == (NetView { blocked: Seq::empty(), ..net }),
        net.alone() == (NetView { peers: Seq::empty(), ..net }),
    decreases given.len(),
{
    if given.len() > 0 {
        let front = given.drop_last();
        let last = given.last();
        let kept = each_once(front);
        blocked_addresses_are_those_given(net, front, ip);
        blocked_addresses_are_those_given(net, front, last);
        assert(given =~= front.push(last));
        if given.contains(ip) && ip != last {
            let k = choose|k: int| 0 <= k < given.len() && given[k] == ip;
            assert(front[k] == ip);
        }
        if !kept.contains(last) {
            let all = kept.push(last);
            assert(all[kept.len() as int] == last);
            if kept.contains(ip) {
                let k = choose|k: int| 0 <= k < kept.len() && kept[k] == ip;
                assert(all[k] == ip);
            }
        }
        if front.contains(ip) {
            let k = choose|k: int| 0 <= k < front.len() && front[k] == ip;
            assert(given[k] == ip);
        }
        assert(given[given.len() - 1] == last);
    }
}

/// The clock in an announcement is the number before its tag, with its sign, and
/// zero where no number stands there.
pub proof fn announced_clocks(net: NetView, key: Seq<u8>, parts: Seq<Seq<char>>, ip: Seq<char>, now: int)
    requires
        parts.len() >= 6,
        net.announcement_heard(key, parts, ip, now).1.catch_up is Some,
    ensures
        ({
            let clock = net.announcement_heard(key, parts, ip, now).1.catch_up->0;
            let written = text::signed_value(parts[parts.len() - 2]);
            &&& written matches Some(n) ==> clock == n
            &&& written is None ==> clock == 0
        }),
{
}

/// However many colons a name has, all of it is read: split again it is the
/// pieces between the address and the clock, or behind the address where there is
/// no clock and no tag.
pub proof fn announced_names_are_whole(parts: Seq<Seq<char>>)
    requires
        forall|i: int| 0 <= i < parts.len() ==> !(#[trigger] parts[i]).contains(':'),
    ensures
        parts.len() >= 6 ==> text::split_on(name_in(parts), ':') == parts.subrange(3, parts.len() - 2),
        3 < parts.len() < 6 ==> text::split_on(name_in(parts), ':') == parts.skip(3),
{
    if parts.len() >= 6 {
        text::split_undoes_join(parts.subrange(3, parts.len() - 2), ':');
    } else if parts.len() > 3 {
        text::split_undoes_join(parts.subrange(3, parts.len() as int), ':');
        assert(parts.subrange(3, parts.len() as int) =~= parts.skip(3));
    }
}

/// A listed device and a reaction stand for their own fields.
pub proof fn reactions_are_their_fields(p: PeerInfo, r: Reaction)
    ensures
        p@.ip == p.ip@,
        p@.name == p.name@,
        r@.greet == r.greet,
        r@.block == r.block,
        r@.note is Some <==> r.note is Some,
        r.note matches Some(n) ==> r@.note == Some((n.0@, n.1@)),
        r@.catch_up is Some <==> r.catch_up is Some,
        r.catch_up is Some ==> r@.catch_up->0 == r.catch_up->0,
{
}

/// At first no device is around or was caught up with, and an address is blocked
/// exactly where it is among those given.
pub proof fn nobody_is_around_at_first(id: String, blocked: Vec<String>, net: NetworkManager, own: &String, ip: &str, r: bool)
    requires
        call_ensures(NetworkManager::new, (id, blocked), net),
        call_ensures(NetworkManager::instance_id, (&net,), own),
        call_ensures(NetworkManager::is_blocked, (&net, ip), r),
    ensures
        own@ == id@,
        net@.instance_id == id@,
        net@.peers.len() == 0,
        net@.caught_up.dom() == Set::<Seq<char>>::empty(),
        r <==> exists|i: int| 0 <= i < blocked@.len() && (#[trigger] blocked@[i])@ == ip@,
{
    let given = text::texts(blocked@);
    blocked_addresses_are_those_given(net@, given, ip@);
    if given.contains(ip@) {
        let i = choose|i: int| 0 <= i < given.len() && given[i] == ip@;
        assert(blocked@[i]@ == ip@);
    }
    if exists|i: int| 0 <= i < blocked@.len() && (#[trigger] blocked@[i])@ == ip@ {
        let i = choose|i: int| 0 <= i < blocked@.len() && (#[trigger] blocked@[i])@ == ip@;
        assert(given[i] == ip@);
    }
}

} // verus!
