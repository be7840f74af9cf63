use unison::addr::PeerAddr;
use unison::codec::{decode_initiation_message, encode_discovery_signal, encode_initiation_message,
    InitiationMessage};
use unison::discovery::{handle_discovery_datagram, initial_collect, rescan_apply,
    DiscoveryOutcome};
use unison::registry::{PeerRegistry, PeerStatus};

fn addr(o0: u8, o1: u8, o2: u8, o3: u8) -> PeerAddr {
    PeerAddr { o0, o1, o2, o3 }
}

fn entries_of(reg: &PeerRegistry) -> Vec<(PeerAddr, PeerStatus)> {
    let mut out = Vec::new();
    let mut i = 0;
    while i < reg.len() {
        out.push(reg.entry_at(i));
        i += 1;
    }
    out
}

fn snapshot_bytes(entries: &[(PeerAddr, PeerStatus)]) -> Vec<u8> {
    let mut reg = PeerRegistry::new();
    for (a, st) in entries {
        reg.upsert(*a, *st);
    }
    encode_initiation_message(&InitiationMessage { ip_map: reg })
}

#[test]
fn no_replies_is_solo_and_registry_unchanged() {
    // The startup round with no replies inside the window: a normal "solo"
    // outcome, nothing merged.
    let mut reg = PeerRegistry::new();
    reg.record_peer(addr(10, 0, 0, 1));
    let before = entries_of(&reg);
    let outcome = initial_collect(&mut reg, &vec![]);
    assert_eq!(outcome, DiscoveryOutcome::Solo);
    assert_eq!(entries_of(&reg), before);
}

#[test]
fn garbage_replies_are_dropped_and_outcome_is_solo() {
    let mut reg = PeerRegistry::new();
    let before = entries_of(&reg);
    let outcome = initial_collect(&mut reg, &vec![vec![1, 2, 3], vec![]]);
    assert_eq!(outcome, DiscoveryOutcome::Solo);
    assert_eq!(entries_of(&reg), before);
}

#[test]
fn valid_reply_merges_and_connects() {
    let mut reg = PeerRegistry::new();
    reg.record_peer(addr(10, 0, 0, 1));
    let reply = snapshot_bytes(&[
        (addr(10, 0, 0, 1), PeerStatus::Speaker),
        (addr(10, 0, 0, 2), PeerStatus::Speaker),
    ]);
    let outcome = initial_collect(&mut reg, &vec![vec![9, 9], reply]);
    assert_eq!(outcome, DiscoveryOutcome::Connected);
    // Additive merge: the recorded role stands, the new peer arrives.
    assert_eq!(reg.role_of(addr(10, 0, 0, 1)), Some(PeerStatus::Player));
    assert_eq!(reg.role_of(addr(10, 0, 0, 2)), Some(PeerStatus::Speaker));
    assert_eq!(reg.len(), 2);
}

#[test]
fn discovery_signal_draws_snapshot_reply_and_records_sender() {
    let mut reg = PeerRegistry::new();
    reg.upsert(addr(10, 0, 0, 7), PeerStatus::Speaker);
    let sender = addr(10, 0, 0, 9);
    let own = addr(192, 168, 1, 5);
    let signal = encode_discovery_signal();
    let (reply, sender_was_new) = handle_discovery_datagram(&mut reg, &signal, sender, Some(own),
        false).expect("a signal draws a reply");
    assert!(sender_was_new);
    // The reply is the snapshot as it stood when the signal arrived: the
    // known peers plus the own entry, not yet the sender.
    let msg = decode_initiation_message(&reply).expect("reply decodes");
    assert_eq!(msg.ip_map.len(), 2);
    assert_eq!(msg.ip_map.role_of(addr(10, 0, 0, 7)), Some(PeerStatus::Speaker));
    assert_eq!(msg.ip_map.role_of(own), Some(PeerStatus::Player));
    assert!(!msg.ip_map.contains_addr(sender));
    // The sender is then recorded with the default role.
    assert_eq!(reg.role_of(sender), Some(PeerStatus::Player));
    assert_eq!(reg.len(), 2);
}

#[test]
fn malformed_datagram_draws_no_reply_and_changes_nothing() {
    let mut reg = PeerRegistry::new();
    reg.record_peer(addr(10, 0, 0, 1));
    let before = entries_of(&reg);
    let reply = handle_discovery_datagram(&mut reg, &vec![7, 7, 7, 7, 7], addr(10, 0, 0, 9),
        None, false);
    assert!(reply.is_none());
    assert_eq!(entries_of(&reg), before);
}

#[test]
fn rescan_evicts_unconfirmed_peers() {
    // Registry held {A: Player, C: Speaker}; the rescan round discovers
    // {A: Player, B: Speaker}; afterwards the registry is exactly that.
    let a = addr(10, 0, 0, 1);
    let b = addr(10, 0, 0, 2);
    let c = addr(10, 0, 0, 3);
    let mut reg = PeerRegistry::new();
    reg.upsert(a, PeerStatus::Player);
    reg.upsert(c, PeerStatus::Speaker);
    let reply = snapshot_bytes(&[(a, PeerStatus::Player), (b, PeerStatus::Speaker)]);
    rescan_apply(&mut reg, &vec![reply]);
    assert_eq!(reg.len(), 2);
    assert_eq!(reg.role_of(a), Some(PeerStatus::Player));
    assert_eq!(reg.role_of(b), Some(PeerStatus::Speaker));
    assert!(!reg.contains_addr(c));
}

#[test]
fn rescan_with_no_replies_empties_the_registry() {
    let mut reg = PeerRegistry::new();
    reg.record_peer(addr(10, 0, 0, 1));
    rescan_apply(&mut reg, &vec![]);
    assert_eq!(reg.len(), 0);
}

#[test]
fn rescan_later_replies_overwrite_roles() {
    let a = addr(10, 0, 0, 1);
    let first = snapshot_bytes(&[(a, PeerStatus::Player)]);
    let second = snapshot_bytes(&[(a, PeerStatus::Speaker)]);
    let mut reg = PeerRegistry::new();
    rescan_apply(&mut reg, &vec![first, second]);
    assert_eq!(reg.role_of(a), Some(PeerStatus::Speaker));
    assert_eq!(reg.len(), 1);
}
