//! The discovery protocol's decisions: what to do with each datagram and what
//! a discovery round leaves in the registry.
//!
//! The surrounding process owns the sockets and the clock: it broadcasts the
//! signal bytes this module produces, collects reply datagrams for the bounded
//! window, and hands them here. Everything that touches the registry — the
//! additive merging of the startup round, the reply built by the standing
//! listener, and the authoritative replacement a rescan performs — is decided
//! and verified here.
use vstd::prelude::*;
use crate::addr::PeerAddr;
use crate::registry::{PeerStatus, PeerRegistry, map_of, spec_snapshot, spec_snapshot_entries};
use crate::codec::{
    dec_init, dec_signal, enc_init, InitiationMessage, decode_initiation_message,
    decode_uni_packet, encode_initiation_message,
};
use crate::iface::{fetch_interfaces, select_own_address};

verus! {

/// Terminal outcome of the startup discovery round: `Connected` when at least
/// one reply merged, `Solo` when none did. Both are normal outcomes; the
/// process continues either way.
#[derive(Clone, Copy, PartialEq, Eq, Structural, Debug)]
pub enum DiscoveryOutcome {
    Connected,
    Solo,
}

/// The byte views of collected datagrams, in arrival order.
pub open spec fn views_of(replies: Seq<Vec<u8>>) -> Seq<Seq<u8>> {
    Seq::new(replies.len(), |i: int| replies[i]@)
}

/// The registry map after additively merging every decodable reply into `m`,
/// in arrival order; undecodable replies are dropped.
pub open spec fn merged_after(m: Map<PeerAddr, PeerStatus>, replies: Seq<Seq<u8>>) -> Map<
    PeerAddr,
    PeerStatus,
>
    decreases replies.len(),
{
    if replies.len() == 0 {
        m
    } else {
        let m2 = match dec_init(replies[0]) {
            Some(s) => map_of(s).union_prefer_right(m),
            None => m,
        };
        merged_after(m2, replies.drop_first())
    }
}

/// Whether any collected reply is a well-formed registry snapshot.
pub open spec fn any_reply_decodes(replies: Seq<Seq<u8>>) -> bool {
    exists|i: int| 0 <= i < replies.len() && (#[trigger] dec_init(replies[i])) is Some
}

/// Ordinary discovery merging is additive-only: however many replies a round
/// merges, no recorded peer is removed and no recorded role changes; entries
/// are evicted only by a rescan's authoritative replacement.
pub proof fn lemma_merged_after_additive(m: Map<PeerAddr, PeerStatus>, replies: Seq<Seq<u8>>)
    ensures
        forall|k: PeerAddr|
            m.contains_key(k) ==> #[trigger] merged_after(m, replies).contains_key(k)
                && merged_after(m, replies)[k] == m[k],
    decreases replies.len(),
{
    if replies.len() > 0 {
        let m2 = match dec_init(replies[0]) {
            Some(s) => map_of(s).union_prefer_right(m),
            None => m,
        };
        lemma_merged_after_additive(m2, replies.drop_first());
        assert forall|k: PeerAddr| m.contains_key(k) implies #[trigger] merged_after(
            m,
            replies,
        ).contains_key(k) && merged_after(m, replies)[k] == m[k] by {
            assert(m2.contains_key(k) && m2[k] == m[k]);
            assert(merged_after(m2, replies.drop_first()).contains_key(k));
        }
    }
}

/// Merges one reply datagram additively into the registry: a well-formed
/// snapshot is merged key by key without overwriting recorded roles, and a
/// malformed datagram leaves the registry untouched. Returns whether the
/// reply was merged.
pub fn apply_initiation_reply(reg: &mut PeerRegistry, datagram: &Vec<u8>) -> (merged: bool)
    requires
        old(reg).wf(),
    ensures
        final(reg).wf(),
        merged == (dec_init(datagram@) is Some),
        final(reg)@ == match dec_init(datagram@) {
            Some(s) => map_of(s).union_prefer_right(old(reg)@),
            None => old(reg)@,
        },
{
    match decode_initiation_message(datagram) {
        Some(m) => {
            proof {
                m.ip_map.lemma_view();
            }
            reg.merge(&m.ip_map);
            true
        },
        None => false,
    }
}

/// The collection phase of the startup round: merges every decodable reply
/// additively, in arrival order, and reports `Connected` exactly when one
/// merged. With no replies the registry is unchanged and the outcome is
/// `Solo`.
pub fn initial_collect(reg: &mut PeerRegistry, replies: &Vec<Vec<u8>>) -> (r: DiscoveryOutcome)
    requires
        old(reg).wf(),
    ensures
        final(reg).wf(),
        final(reg)@ == merged_after(old(reg)@, views_of(replies@)),
        r == (if any_reply_decodes(views_of(replies@)) {
            DiscoveryOutcome::Connected
        } else {
            DiscoveryOutcome::Solo
        }),
        replies@.len() == 0 ==> final(reg)@ == old(reg)@,
{
    let ghost vs = views_of(replies@);
    let n = replies.len();
    let mut found = false;
    let mut i: usize = 0;
    assert(vs.skip(0) =~= vs);
    while i < n
        invariant
            i <= n == replies@.len(),
            vs == views_of(replies@),
            reg.wf(),
            merged_after(old(reg)@, vs) == merged_after(reg@, vs.skip(i as int)),
            found == exists|j: int| 0 <= j < i && (#[trigger] dec_init(vs[j])) is Some,
        decreases n - i,
    {
        let merged = apply_initiation_reply(reg, &replies[i]);
        proof {
            assert(vs.skip(i as int)[0] == vs[i as int]);
            assert(vs[i as int] == replies@[i as int]@);
            assert(vs.skip(i as int).drop_first() =~= vs.skip(i as int + 1));
        }
        let found2 = found || merged;
        proof {
            if found2 {
                if found {
                    let j = choose|j: int| 0 <= j < i && (#[trigger] dec_init(vs[j])) is Some;
                    assert(0 <= j < i + 1 && dec_init(vs[j]) is Some);
                } else {
                    assert(dec_init(vs[i as int]) is Some);
                }
            }
        }
        found = found2;
        i = i + 1;
    }
    proof {
        assert(vs.skip(n as int) =~= Seq::<Seq<u8>>::empty());
    }
    if found {
        DiscoveryOutcome::Connected
    } else {
        DiscoveryOutcome::Solo
    }
}

/// The standing listener's reaction to one datagram. A well-formed discovery
/// signal gets a reply — the encoded snapshot of the registry as it stood
/// when the signal arrived, augmented with the own entry — and the sender is
/// then recorded as a newly seen peer with the default role; the flag beside
/// the reply bytes says whether the sender was new, for the caller's log.
/// Malformed input draws no reply and changes nothing; the listener never
/// stops over it.
pub fn handle_discovery_datagram(
    reg: &mut PeerRegistry,
    datagram: &Vec<u8>,
    sender: PeerAddr,
    own: Option<PeerAddr>,
    local_is_speaker: bool,
) -> (reply: Option<(Vec<u8>, bool)>)
    requires
        old(reg).wf(),
    ensures
        final(reg).wf(),
        match dec_signal(datagram@) {
            Some(p) => reply is Some && reply.unwrap().0@ == enc_init(
                spec_snapshot_entries(old(reg).entry_seq(), own, local_is_speaker),
            ) && reply.unwrap().1 == !old(reg)@.contains_key(sender) && final(reg)@ == (if old(
                reg,
            )@.contains_key(sender) {
                old(reg)@
            } else {
                old(reg)@.insert(sender, PeerStatus::Player)
            }),
            None => reply is None && *final(reg) == *old(reg),
        },
{
    match decode_uni_packet(datagram) {
        Some(_) => {
            let snap = reg.snapshot(own, local_is_speaker);
            let bytes = encode_initiation_message(&InitiationMessage { ip_map: snap });
            let is_new = reg.record_peer(sender);
            Some((bytes, is_new))
        },
        None => None,
    }
}

/// The registry map a rescan round accumulates from its replies: every entry
/// of every decodable reply is inserted, later replies overwriting earlier
/// roles for the same address; undecodable replies are dropped.
pub open spec fn rescan_fold(acc: Map<PeerAddr, PeerStatus>, replies: Seq<Seq<u8>>) -> Map<
    PeerAddr,
    PeerStatus,
>
    decreases replies.len(),
{
    if replies.len() == 0 {
        acc
    } else {
        let acc2 = match dec_init(replies[0]) {
            Some(s) => acc.union_prefer_right(map_of(s)),
            None => acc,
        };
        rescan_fold(acc2, replies.drop_first())
    }
}

/// Accumulates the replies of a rescan round into `discovered`, overwriting
/// on repeated addresses, in arrival order.
pub fn collect_rescan_replies(discovered: &mut PeerRegistry, replies: &Vec<Vec<u8>>)
    requires
        old(discovered).wf(),
    ensures
        final(discovered).wf(),
        final(discovered)@ == rescan_fold(old(discovered)@, views_of(replies@)),
{
    let ghost vs = views_of(replies@);
    let n = replies.len();
    let mut i: usize = 0;
    assert(vs.skip(0) =~= vs);
    while i < n
        invariant
            i <= n == replies@.len(),
            vs == views_of(replies@),
            discovered.wf(),
            rescan_fold(old(discovered)@, vs) == rescan_fold(discovered@, vs.skip(i as int)),
        decreases n - i,
    {
        proof {
            assert(vs.skip(i as int)[0] == vs[i as int]);
            assert(vs[i as int] == replies@[i as int]@);
            assert(vs.skip(i as int).drop_first() =~= vs.skip(i as int + 1));
        }
        match decode_initiation_message(&replies[i]) {
            Some(m) => {
                proof {
                    m.ip_map.lemma_view();
                }
                discovered.absorb(&m.ip_map);
            },
            None => {
            },
        }
        i = i + 1;
    }
    proof {
        assert(vs.skip(n as int) =~= Seq::<Seq<u8>>::empty());
    }
}

/// Applies a completed rescan round: the registry is authoritatively replaced
/// by exactly what the round discovered; peers that failed to answer this
/// round are evicted.
pub fn rescan_apply(reg: &mut PeerRegistry, replies: &Vec<Vec<u8>>)
    requires
        old(reg).wf(),
    ensures
        final(reg).wf(),
        final(reg)@ == rescan_fold(Map::empty(), views_of(replies@)),
{
    let mut discovered = PeerRegistry::new();
    collect_rescan_replies(&mut discovered, replies);
    reg.replace(&discovered);
}

/// Builds the registry mapping a reply advertises: the current registry
/// augmented with the machine's own address — resolved from the interfaces
/// now, never cached — and the current local role. `None` only when the
/// interfaces could not be enumerated.
pub fn get_ip_map(reg: &PeerRegistry, local_is_speaker: bool) -> (r: Option<PeerRegistry>)
    requires
        reg.wf(),
    ensures
        match r {
            Some(m) => m.wf() && exists|own: Option<PeerAddr>|
                m@ == #[trigger] spec_snapshot(reg@, own, local_is_speaker),
            None => true,
        },
{
    match fetch_interfaces() {
        Some(ifaces) => {
            let own = select_own_address(&ifaces);
            let snap = reg.snapshot(own, local_is_speaker);
            proof {
                assert(snap@ == spec_snapshot(reg@, own, local_is_speaker));
            }
            Some(snap)
        },
        None => None,
    }
}

/// Builds the reply message to a discovery signal from the current registry
/// and local role. `None` only when the interfaces could not be enumerated.
pub fn create_initiation_message(reg: &PeerRegistry, local_is_speaker: bool) -> (r: Option<
    InitiationMessage,
>)
    requires
        reg.wf(),
    ensures
        match r {
            Some(m) => m.ip_map.wf() && exists|own: Option<PeerAddr>|
                m.ip_map@ == #[trigger] spec_snapshot(reg@, own, local_is_speaker),
            None => true,
        },
{
    match get_ip_map(reg, local_is_speaker) {
        Some(ip_map) => Some(InitiationMessage { ip_map }),
        None => None,
    }
}

} // verus!
