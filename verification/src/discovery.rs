//! How devices with the same key announce themselves to each other.
use crate::crypto;
use crate::crypto::CryptoState;
use crate::primitives;
use crate::text;
use crate::text::{blank, decimal_text, same};
use vstd::prelude::*;

verus! {

broadcast use vstd::seq_lib::group_seq_properties;

/// The digest by which devices with the same key know each other.
pub open spec fn key_hash(key: Seq<u8>) -> Seq<char> {
    primitives::hex_text(primitives::sha256_digest(key))
}

/// Two texts with a colon between them.
pub open spec fn colon(a: Seq<char>, b: Seq<char>) -> Seq<char> {
    a.push(':') + b
}

/// What an announcement says, without the tag that vouches for it.
pub open spec fn announced(
    key_hash: Seq<char>,
    instance_id: Seq<char>,
    ip: Seq<char>,
    name: Seq<char>,
    hlc: Seq<char>,
) -> Seq<char> {
    "CIPHERCLIP_DISCOVER:"@ + colon(colon(colon(colon(key_hash, instance_id), ip), name), hlc)
}

/// The written tag of an announcement.
pub open spec fn tag_text(key: Seq<u8>, said: Seq<char>) -> Seq<char> {
    primitives::hex_text(crypto::sync_state_tag(key, said))
}

/// The clock that an announcement carries: nothing where there is none yet.
pub open spec fn clock_text(hlc: int) -> Seq<char> {
    if hlc > 0 {
        text::decimal(hlc as nat)
    } else {
        Seq::empty()
    }
}

/// A whole announcement.
pub open spec fn announcement(
    key: Seq<u8>,
    instance_id: Seq<char>,
    ip: Seq<char>,
    name: Seq<char>,
    hlc: int,
) -> Seq<char> {
    let said = announced(key_hash(key), instance_id, ip, name, clock_text(hlc));
    colon(said, tag_text(key, said))
}

fn append_after_colon(s: &mut String, t: &str)
    ensures
        final(s)@ == colon(old(s)@, t@),
{
    s.push(':');
    s.append(t);
}

/// What an announcement says, without its tag.
pub fn announced_text(key_hash: &str, instance_id: &str, ip: &str, name: &str, hlc: &str) -> (r: String)
    ensures
        r@ == announced(key_hash@, instance_id@, ip@, name@, hlc@),
{
    let mut body = key_hash.to_owned();
    append_after_colon(&mut body, instance_id);
    append_after_colon(&mut body, ip);
    append_after_colon(&mut body, name);
    append_after_colon(&mut body, hlc);
    let mut said = "CIPHERCLIP_DISCOVER:".to_owned();
    said.append(body.as_str());
    said
}

/// The announcement of a device.
pub fn discovery_message(
    crypto: &CryptoState,
    instance_id: &str,
    my_ip: &str,
    device_name: &str,
    latest_hlc: i64,
) -> (r: String)
    ensures
        r@ == announcement(crypto@, instance_id@, my_ip@, device_name@, latest_hlc as int),
{
    let hash = crypto.get_sync_key_hash();
    let hlc: String = if latest_hlc > 0 {
        decimal_text(latest_hlc as u128)
    } else {
        String::new()
    };
    let said = announced_text(hash.as_str(), instance_id, my_ip, device_name, hlc.as_str());
    let tag = crypto.generate_sync_state_mac(said.as_str());
    let mut message = said;
    append_after_colon(&mut message, tag.as_str());
    message
}

/// What a device says when it leaves another.
pub open spec fn farewell(key: Seq<u8>, instance_id: Seq<char>, ip: Seq<char>) -> Seq<char> {
    "CIPHERCLIP_DISCONNECT:"@ + colon(colon(key_hash(key), instance_id), ip)
}

/// What a device says when it leaves another.
pub fn disconnect_message(crypto: &CryptoState, instance_id: &str, my_ip: &str) -> (r: String)
    ensures
        r@ == farewell(crypto@, instance_id@, my_ip@),
{
    let mut body = crypto.get_sync_key_hash();
    append_after_colon(&mut body, instance_id);
    append_after_colon(&mut body, my_ip);
    let mut message = "CIPHERCLIP_DISCONNECT:".to_owned();
    message.append(body.as_str());
    message
}

/// The name under which a device announces itself, given its lower-case form: a
/// name that says nothing is replaced.
pub open spec fn label(name: Seq<char>, lowered: Seq<char>) -> Seq<char> {
    if lowered == "unknown"@ || lowered == "localhost"@ || text::is_blank(name) {
        "Mobile Device"@
    } else {
        name
    }
}

/// The name under which a device announces itself, given its lower-case form.
pub fn label_from(name: &str, lowered: &str) -> (r: String)
    ensures
        r@ == label(name@, lowered@),
{
    if same(lowered, "unknown") || same(lowered, "localhost") || blank(name) {
        "Mobile Device".to_owned()
    } else {
        name.to_owned()
    }
}

/// The name under which a device announces itself; a device whose name is not
/// known is called so.
pub fn device_label(name: Option<&str>) -> (r: String)
    ensures
        r@ == match name {
            Some(n) => label(n@, text::lowercased(n@)),
            None => label("Unknown Device"@, text::lowercased("Unknown Device"@)),
        },
{
    let name: &str = match name {
        Some(n) => n,
        None => "Unknown Device",
    };
    let lowered = name.to_lowercase();
    label_from(name, lowered.as_str())
}

/// The address at which this device can be reached: that of its interface
/// unless it is the loopback, else the one by which it reaches the outside, else
/// the loopback.
pub open spec fn reachable_at(interface: Option<Seq<char>>, outward: Option<Seq<char>>) -> Seq<char> {
    match interface {
        Some(ip) if ip != "127.0.0.1"@ => ip,
        _ => match outward {
            Some(ip) => ip,
            None => "127.0.0.1"@,
        },
    }
}

/// The text of an optional string slice.
pub open spec fn opt_str(o: Option<&str>) -> Option<Seq<char>> {
    match o {
        Some(s) => Some(s@),
        None => None,
    }
}

/// Whether the address of the interface will do, so that the other need not be
/// looked up.
pub fn interface_suffices(interface: Option<&str>) -> (r: bool)
    ensures
        r == (opt_str(interface) matches Some(ip) && ip != "127.0.0.1"@),
{
    match interface {
        Some(ip) => !same(ip, "127.0.0.1"),
        None => false,
    }
}

/// The address at which this device can be reached.
pub fn get_my_ip(interface: Option<&str>, outward: Option<&str>) -> (r: String)
    ensures
        r@ == reachable_at(opt_str(interface), opt_str(outward)),
{
    if interface_suffices(interface) {
        match interface {
            Some(ip) => ip.to_owned(),
            None => "127.0.0.1".to_owned(),
        }
    } else {
        match outward {
            Some(ip) => ip.to_owned(),
            None => "127.0.0.1".to_owned(),
        }
    }
}

/// An address in dotted form.
pub open spec fn dotted(a: int, b: int, c: int, d: int) -> Seq<char> {
    text::decimal(a as nat).push('.') + (text::decimal(b as nat).push('.') + (text::decimal(c as nat).push('.')
        + text::decimal(d as nat)))
}

/// The broadcast address of the subnet of an address, taken to have 24 bits;
/// nothing where that is the global one.
pub fn subnet_broadcast(a: u8, b: u8, c: u8) -> (r: Option<String>)
    ensures
        match r {
            Some(s) => s@ == dotted(a as int, b as int, c as int, 255) && !(a == 255 && b == 255 && c == 255),
            None => a == 255 && b == 255 && c == 255,
        },
{
    if a == 255 && b == 255 && c == 255 {
        return None;
    }
    let mut s = decimal_text(a as u128);
    s.push('.');
    s.append(decimal_text(b as u128).as_str());
    s.push('.');
    s.append(decimal_text(c as u128).as_str());
    s.push('.');
    s.append(decimal_text(255).as_str());
    assert(s@ =~= dotted(a as int, b as int, c as int, 255));
    Some(s)
}

// ---------------------------------------------------------------------------
// Laws
// ---------------------------------------------------------------------------

/// A device goes by its own name, whatever that is, unless it is blank or says
/// no more than that the device is unknown or this one.
pub proof fn devices_go_by_their_name(name: &str, lowered: &str, r: String)
    requires
        call_ensures(label_from, (name, lowered), r),
    ensures
        lowered@ == "unknown"@ ==> r@ == "Mobile Device"@,
        lowered@ == "localhost"@ ==> r@ == "Mobile Device"@,
        (forall|i: int| 0 <= i < name@.len() ==> text::is_white(#[trigger] name@[i])) ==> r@ == "Mobile Device"@,
        lowered@ != "unknown"@ && lowered@ != "localhost"@ && (exists|i: int|
            0 <= i < name@.len() && !text::is_white(#[trigger] name@[i])) ==> r@ == name@,
{
}

/// The case of a name that says nothing makes no difference, and a device whose
/// name is not known is called so.
pub proof fn names_are_told_by_their_lower_case(name: Option<&str>, lowered: &str, n: &str, r: String, q: String)
    requires
        n@ == (match name {
            Some(s) => s@,
            None => "Unknown Device"@,
        }),
        lowered@ == text::lowercased(n@),
        call_ensures(device_label, (name,), r),
        call_ensures(label_from, (n, lowered), q),
    ensures
        r@ == q@,
{
}

/// A device can be reached at the address of its interface, unless that is the
/// loopback; then at the one by which it reaches the outside, and at the loopback
/// only where it has neither.
pub proof fn loopback_is_the_last_resort(interface: Option<&str>, outward: Option<&str>, suffices: bool, r: String)
    requires
        call_ensures(interface_suffices, (interface,), suffices),
        call_ensures(get_my_ip, (interface, outward), r),
    ensures
        suffices <==> interface is Some && interface->0@ != "127.0.0.1"@,
        suffices ==> r@ == interface->0@,
        !suffices && outward is Some ==> r@ == outward->0@,
        !suffices && outward is None ==> r@ == "127.0.0.1"@,
{
}

/// A broadcast address keeps the first three numbers of an address and ends with
/// 255; there is one unless those three are 255 themselves.
pub proof fn broadcasts_end_with_255(a: u8, b: u8, c: u8, r: Option<String>)
    requires
        call_ensures(subnet_broadcast, (a, b, c), r),
    ensures
        r is None <==> a == 255 && b == 255 && c == 255,
        r matches Some(s) ==> s@ == text::decimal(a as nat) + "."@ + text::decimal(b as nat) + "."@ + text::decimal(
            c as nat,
        ) + "."@ + text::decimal(255),
{
    reveal_strlit(".");
    if r is Some {
        assert(r->0@ =~= text::decimal(a as nat) + "."@ + text::decimal(b as nat) + "."@ + text::decimal(c as nat)
            + "."@ + text::decimal(255));
    }
}

/// An announcement names the key by its digest, the device, its address and its
/// name, and its clock if there is one, a colon between each; the tag behind the
/// last colon is that of everything before.
pub proof fn announcements_say_who_and_where(
    crypto: CryptoState,
    instance_id: &str,
    my_ip: &str,
    device_name: &str,
    latest_hlc: i64,
    hash: String,
    said: &str,
    tag: String,
    r: String,
)
    requires
        call_ensures(CryptoState::get_sync_key_hash, (&crypto,), hash),
        said@ == "CIPHERCLIP_DISCOVER:"@ + hash@ + ":"@ + instance_id@ + ":"@ + my_ip@ + ":"@ + device_name@ + ":"@ + (
        if latest_hlc > 0 {
            text::decimal(latest_hlc as nat)
        } else {
            Seq::empty()
        }),
        call_ensures(CryptoState::generate_sync_state_mac, (&crypto, said), tag),
        call_ensures(discovery_message, (&crypto, instance_id, my_ip, device_name, latest_hlc), r),
    ensures
        r@ == said@ + ":"@ + tag@,
{
    reveal_strlit(":");
    let body = announced(key_hash(crypto@), instance_id@, my_ip@, device_name@, clock_text(latest_hlc as int));
    assert(said@ =~= body);
    assert(r@ =~= said@ + ":"@ + tag@);
}

/// A farewell names the key by its digest, the device and its address, a colon
/// between each.
pub proof fn farewells_say_who(crypto: CryptoState, instance_id: &str, my_ip: &str, hash: String, r: String)
    requires
        call_ensures(CryptoState::get_sync_key_hash, (&crypto,), hash),
        call_ensures(disconnect_message, (&crypto, instance_id, my_ip), r),
    ensures
        r@ == "CIPHERCLIP_DISCONNECT:"@ + hash@ + ":"@ + instance_id@ + ":"@ + my_ip@,
{
    reveal_strlit(":");
    assert(r@ =~= "CIPHERCLIP_DISCONNECT:"@ + hash@ + ":"@ + instance_id@ + ":"@ + my_ip@);
}

/// What an announcement says is what it is made of, a colon between each.
pub proof fn announced_text_is_put_together(
    key_hash: &str,
    instance_id: &str,
    ip: &str,
    name: &str,
    hlc: &str,
    r: String,
)
    requires
        call_ensures(announced_text, (key_hash, instance_id, ip, name, hlc), r),
    ensures
        r@ == "CIPHERCLIP_DISCOVER:"@ + key_hash@ + ":"@ + instance_id@ + ":"@ + ip@ + ":"@ + name@ + ":"@ + hlc@,
{
    reveal_strlit(":");
    assert(r@ =~= "CIPHERCLIP_DISCOVER:"@ + key_hash@ + ":"@ + instance_id@ + ":"@ + ip@ + ":"@ + name@ + ":"@ + hlc@);
}

} // verus!
