//! The interface inspector: derives the LAN broadcast address and the
//! machine's own address from the operating system's network interfaces.
//!
//! Enumerating interfaces depends on the machine, so the enumeration sits
//! behind one trusted wrapper that hands back plain values; the selection
//! logic over those values is verified exactly. An interface is carried as
//! its name bytes, its loopback flag, and its IPv4 address and netmask when
//! it has them.
use vstd::prelude::*;
use crate::addr::PeerAddr;

verus! {

/// An interface's IPv4 binding: address and netmask, most significant byte
/// first in each 32-bit value.
#[derive(Clone, Copy, PartialEq, Eq, Structural, Debug)]
pub struct V4Net {
    pub ip: u32,
    pub netmask: u32,
}

/// One network interface, reduced to the facts the selection logic reads.
pub struct NetInterface {
    pub name: Vec<u8>,
    pub is_loopback: bool,
    pub v4: Option<V4Net>,
}

/// Whether `needle` occurs contiguously inside `hay`.
pub open spec fn contains_seq(hay: Seq<u8>, needle: Seq<u8>) -> bool {
    exists|i: int|
        0 <= i <= hay.len() - needle.len() && #[trigger] hay.subrange(i, i + needle.len())
            == needle
}

/// Whether `needle` occurs at position `i` of `hay`.
fn match_at(hay: &Vec<u8>, needle: &Vec<u8>, i: usize) -> (r: bool)
    requires
        i + needle@.len() <= hay@.len(),
    ensures
        r == (hay@.subrange(i as int, i as int + needle@.len()) == needle@),
{
    let n = needle.len();
    let hl = hay.len();
    let mut j: usize = 0;
    while j < n
        invariant
            j <= n == needle@.len(),
            i + n <= hl == hay@.len(),
            forall|k: int| 0 <= k < j ==> hay@[i + k] == needle@[k],
        decreases n - j,
    {
        if hay[i + j] != needle[j] {
            assert(hay@.subrange(i as int, i as int + needle@.len())[j as int] != needle@[
                j as int]);
            return false;
        }
        j = j + 1;
    }
    assert(hay@.subrange(i as int, i as int + needle@.len()) =~= needle@);
    true
}

/// Substring search over bytes, exact against `contains_seq`.
pub fn contains_bytes(hay: &Vec<u8>, needle: &Vec<u8>) -> (r: bool)
    ensures
        r == contains_seq(hay@, needle@),
{
    let n = needle.len();
    let h = hay.len();
    if n > h {
        assert(!contains_seq(hay@, needle@));
        return false;
    }
    if n == 0 {
        assert(contains_seq(hay@, needle@)) by {
            assert(hay@.subrange(0, 0 + needle@.len() as int) =~= needle@);
        }
        return true;
    }
    let mut i: usize = 0;
    while i <= h - n
        invariant
            1 <= n <= h == hay@.len(),
            n == needle@.len(),
            i <= h - n + 1,
            forall|x: int|
                0 <= x < i ==> #[trigger] hay@.subrange(x, x + needle@.len()) != needle@,
        decreases h - n - i + 1,
    {
        if match_at(hay, needle, i) {
            assert(contains_seq(hay@, needle@));
            return true;
        }
        i = i + 1;
    }
    assert(!contains_seq(hay@, needle@)) by {
        if contains_seq(hay@, needle@) {
            let x = choose|x: int|
                0 <= x <= hay@.len() - needle@.len() && #[trigger] hay@.subrange(
                    x,
                    x + needle@.len(),
                ) == needle@;
            assert(x < i);
        }
    }
    false
}

/// The bytes of `"vpn"`.
pub open spec fn pat_vpn() -> Seq<u8> {
    seq![118u8, 112u8, 110u8]
}

/// The bytes of `"Virtual"`.
pub open spec fn pat_virtual() -> Seq<u8> {
    seq![86u8, 105u8, 114u8, 116u8, 117u8, 97u8, 108u8]
}

/// The bytes of `"eth"`.
pub open spec fn pat_eth() -> Seq<u8> {
    seq![101u8, 116u8, 104u8]
}

/// The bytes of `"wlan"`.
pub open spec fn pat_wlan() -> Seq<u8> {
    seq![119u8, 108u8, 97u8, 110u8]
}

fn vpn_pattern() -> (r: Vec<u8>)
    ensures
        r@ == pat_vpn(),
{
    let r = vec![118u8, 112u8, 110u8];
    assert(r@ =~= pat_vpn());
    r
}

fn virtual_pattern() -> (r: Vec<u8>)
    ensures
        r@ == pat_virtual(),
{
    let r = vec![86u8, 105u8, 114u8, 116u8, 117u8, 97u8, 108u8];
    assert(r@ =~= pat_virtual());
    r
}

fn eth_pattern() -> (r: Vec<u8>)
    ensures
        r@ == pat_eth(),
{
    let r = vec![101u8, 116u8, 104u8];
    assert(r@ =~= pat_eth());
    r
}

fn wlan_pattern() -> (r: Vec<u8>)
    ensures
        r@ == pat_wlan(),
{
    let r = vec![119u8, 108u8, 97u8, 110u8];
    assert(r@ =~= pat_wlan());
    r
}

/// An interface may contribute a broadcast address: not loopback, name free
/// of `"vpn"` and `"Virtual"`, an IPv4 binding, and a non-zero netmask.
pub open spec fn bcast_eligible(f: NetInterface) -> bool {
    &&& !f.is_loopback
    &&& !contains_seq(f.name@, pat_vpn())
    &&& !contains_seq(f.name@, pat_virtual())
    &&& f.v4 is Some
    &&& f.v4.unwrap().netmask != 0
}

/// Wired and wireless interfaces (`"eth"`, `"wlan"` in the name) override an
/// earlier candidate.
pub open spec fn bcast_preferred(f: NetInterface) -> bool {
    contains_seq(f.name@, pat_eth()) || contains_seq(f.name@, pat_wlan())
}

/// The broadcast address an interface derives: `ip OR NOT netmask`.
pub open spec fn bcast_of(f: NetInterface) -> u32
    recommends
        f.v4 is Some,
{
    f.v4.unwrap().ip | !f.v4.unwrap().netmask
}

/// The broadcast candidate after walking `s` with accumulator `acc`: the
/// first eligible interface is retained, and a later eligible preferred one
/// overrides it.
pub open spec fn fold_bcast(s: Seq<NetInterface>, acc: Option<u32>) -> Option<u32>
    decreases s.len(),
{
    if s.len() == 0 {
        acc
    } else {
        let f = s[0];
        let acc2 = if bcast_eligible(f) && (acc is None || bcast_preferred(f)) {
            Some(bcast_of(f))
        } else {
            acc
        };
        fold_bcast(s.drop_first(), acc2)
    }
}

/// The limited broadcast address, the fallback when no interface is eligible.
pub open spec fn limited_broadcast() -> PeerAddr {
    PeerAddr { o0: 255, o1: 255, o2: 255, o3: 255 }
}

/// The broadcast address the inspector derives from a list of interfaces:
/// the fold over the list, or the limited broadcast address as fallback.
pub open spec fn spec_broadcast_choice(s: Seq<NetInterface>) -> PeerAddr {
    match fold_bcast(s, None) {
        Some(b) => PeerAddr::spec_from_u32(b),
        None => limited_broadcast(),
    }
}

/// Selects the broadcast address from enumerated interfaces, exactly as
/// `spec_broadcast_choice` describes.
pub fn select_broadcast_address(ifaces: &Vec<NetInterface>) -> (r: PeerAddr)
    ensures
        r == spec_broadcast_choice(ifaces@),
{
    let vpn = vpn_pattern();
    let virt = virtual_pattern();
    let eth = eth_pattern();
    let wlan = wlan_pattern();
    let n = ifaces.len();
    let mut acc: Option<u32> = None;
    let mut i: usize = 0;
    assert(ifaces@.skip(0) =~= ifaces@);
    while i < n
        invariant
            i <= n == ifaces@.len(),
            vpn@ == pat_vpn(),
            virt@ == pat_virtual(),
            eth@ == pat_eth(),
            wlan@ == pat_wlan(),
            fold_bcast(ifaces@, None) == fold_bcast(ifaces@.skip(i as int), acc),
        decreases n - i,
    {
        let f = &ifaces[i];
        let eligible = !f.is_loopback && !contains_bytes(&f.name, &vpn) && !contains_bytes(
            &f.name,
            &virt,
        ) && match f.v4 {
            Some(net) => net.netmask != 0,
            None => false,
        };
        let take_it = eligible && (acc.is_none() || contains_bytes(&f.name, &eth)
            || contains_bytes(&f.name, &wlan));
        let acc2 = if take_it {
            match f.v4 {
                Some(net) => Some(net.ip | !net.netmask),
                None => acc,
            }
        } else {
            acc
        };
        proof {
            let tail = ifaces@.skip(i as int);
            assert(tail[0] == ifaces@[i as int]);
            assert(tail.drop_first() =~= ifaces@.skip(i as int + 1));
            assert(eligible == bcast_eligible(ifaces@[i as int]));
            assert(fold_bcast(tail, acc) == fold_bcast(ifaces@.skip(i as int + 1), acc2));
        }
        acc = acc2;
        i = i + 1;
    }
    proof {
        assert(ifaces@.skip(n as int) =~= Seq::<NetInterface>::empty());
    }
    match acc {
        Some(b) => PeerAddr::from_u32(b),
        None => PeerAddr { o0: 255, o1: 255, o2: 255, o3: 255 },
    }
}

/// An interface may contribute the machine's own address: not loopback, an
/// IPv4 binding, and a private-range address.
pub open spec fn own_eligible(f: NetInterface) -> bool {
    &&& !f.is_loopback
    &&& f.v4 is Some
    &&& PeerAddr::spec_from_u32(f.v4.unwrap().ip).spec_is_private()
}

/// The own-address candidate after walking `s` with accumulator `acc`: the
/// first private address is retained, and a later 192.168.x.x one overrides
/// it. `None` when no interface carries a private IPv4 address.
pub open spec fn fold_own(s: Seq<NetInterface>, acc: Option<PeerAddr>) -> Option<PeerAddr>
    decreases s.len(),
{
    if s.len() == 0 {
        acc
    } else {
        let f = s[0];
        let acc2 = if own_eligible(f) && (acc is None || PeerAddr::spec_from_u32(
            f.v4.unwrap().ip,
        ).spec_is_192_168()) {
            Some(PeerAddr::spec_from_u32(f.v4.unwrap().ip))
        } else {
            acc
        };
        fold_own(s.drop_first(), acc2)
    }
}

/// Whatever the interfaces are, the own-address fold yields only private
/// addresses (or keeps an accumulator that already was one).
pub proof fn lemma_fold_own_private(s: Seq<NetInterface>, acc: Option<PeerAddr>)
    requires
        acc matches Some(a) ==> a.spec_is_private(),
    ensures
        fold_own(s, acc) matches Some(a) ==> a.spec_is_private(),
    decreases s.len(),
{
    if s.len() > 0 {
        let f = s[0];
        let acc2 = if own_eligible(f) && (acc is None || PeerAddr::spec_from_u32(
            f.v4.unwrap().ip,
        ).spec_is_192_168()) {
            Some(PeerAddr::spec_from_u32(f.v4.unwrap().ip))
        } else {
            acc
        };
        lemma_fold_own_private(s.drop_first(), acc2);
    }
}

/// Selects the machine's own LAN address from enumerated interfaces, exactly
/// as `fold_own` describes.
pub fn select_own_address(ifaces: &Vec<NetInterface>) -> (r: Option<PeerAddr>)
    ensures
        r == fold_own(ifaces@, None),
{
    let n = ifaces.len();
    let mut acc: Option<PeerAddr> = None;
    let mut i: usize = 0;
    assert(ifaces@.skip(0) =~= ifaces@);
    while i < n
        invariant
            i <= n == ifaces@.len(),
            fold_own(ifaces@, None) == fold_own(ifaces@.skip(i as int), acc),
        decreases n - i,
    {
        let f = &ifaces[i];
        let acc2 = match f.v4 {
            Some(net) => {
                let a = PeerAddr::from_u32(net.ip);
                if !f.is_loopback && a.is_private() && (acc.is_none() || a.is_192_168()) {
                    Some(a)
                } else {
                    acc
                }
            },
            None => acc,
        };
        proof {
            let tail = ifaces@.skip(i as int);
            assert(tail[0] == ifaces@[i as int]);
            assert(tail.drop_first() =~= ifaces@.skip(i as int + 1));
            assert(fold_own(tail, acc) == fold_own(ifaces@.skip(i as int + 1), acc2));
        }
        acc = acc2;
        i = i + 1;
    }
    proof {
        assert(ifaces@.skip(n as int) =~= Seq::<NetInterface>::empty());
    }
    acc
}

/// Relies on get_if_addrs::get_if_addrs: enumerates the operating system's
/// network interfaces, with each interface's name, loopback flag, and IPv4
/// address and netmask where it has them. The outcome depends on the machine,
/// so nothing is promised of the list; the selection functions above are
/// verified for every possible outcome. `None` reports an enumeration error.
#[verifier::external_body]
pub(crate) fn fetch_interfaces() -> (r: Option<Vec<NetInterface>>) {
    let list = get_if_addrs::get_if_addrs().ok()?;
    Some(list.into_iter().map(|iface| NetInterface {
        is_loopback: iface.is_loopback(),
        v4: match &iface.addr {
            get_if_addrs::IfAddr::V4(v) =>
                Some(V4Net { ip: u32::from(v.ip), netmask: u32::from(v.netmask) }),
            get_if_addrs::IfAddr::V6(_) => None,
        },
        name: iface.name.into_bytes(),
    }).collect())
}

/// Derives the LAN broadcast address from the machine's interfaces: the
/// verified selection applied to whatever the enumeration returned. `None`
/// only when the interfaces could not be enumerated at all; otherwise some
/// address is always usable, the limited broadcast address at worst.
pub fn get_broadcast_address() -> (r: Option<PeerAddr>) {
    match fetch_interfaces() {
        Some(ifaces) => Some(select_broadcast_address(&ifaces)),
        None => None,
    }
}

/// Resolves the machine's own LAN address from its interfaces: the verified
/// selection applied to whatever the enumeration returned. `None` when no
/// interface carries a private IPv4 address, or when enumeration failed;
/// whatever comes back is an address in a private range.
pub fn resolve_own_address() -> (r: Option<PeerAddr>)
    ensures
        r matches Some(a) ==> a.spec_is_private(),
{
    match fetch_interfaces() {
        Some(ifaces) => {
            let own = select_own_address(&ifaces);
            proof {
                lemma_fold_own_private(ifaces@, None);
            }
            own
        },
        None => None,
    }
}

} // verus!
