use unison::addr::PeerAddr;
use unison::registry::{PeerRegistry, PeerStatus};

fn addr(o0: u8, o1: u8, o2: u8, o3: u8) -> PeerAddr {
    PeerAddr { o0, o1, o2, o3 }
}

fn entries_of(reg: &PeerRegistry) -> Vec<(PeerAddr, PeerStatus)> {
    let mut out = Vec::new();
    let mut i = 0;
    while i < reg.len() {
        out.push(reg.entry_at(i));
        i += 1;
    }
    out
}

#[test]
fn record_peer_twice_keeps_one_entry() {
    // Fresh registry, the same peer recorded twice: exactly one entry with the
    // default role, and the second call reports the peer as already known.
    let mut reg = PeerRegistry::new();
    let a = addr(10, 0, 0, 5);
    assert!(reg.record_peer(a));
    let before = entries_of(&reg);
    assert!(!reg.record_peer(a));
    assert_eq!(entries_of(&reg), before);
    assert_eq!(reg.len(), 1);
    assert_eq!(reg.role_of(a), Some(PeerStatus::Player));
}

#[test]
fn merge_never_overwrites_recorded_roles() {
    let mut reg = PeerRegistry::new();
    reg.upsert(addr(10, 0, 0, 1), PeerStatus::Speaker);
    let mut other = PeerRegistry::new();
    other.upsert(addr(10, 0, 0, 1), PeerStatus::Player);
    other.upsert(addr(10, 0, 0, 2), PeerStatus::Player);
    reg.merge(&other);
    assert_eq!(reg.role_of(addr(10, 0, 0, 1)), Some(PeerStatus::Speaker));
    assert_eq!(reg.role_of(addr(10, 0, 0, 2)), Some(PeerStatus::Player));
    assert_eq!(reg.len(), 2);
}

#[test]
fn merge_is_idempotent() {
    // Merging the same snapshot twice changes nothing beyond the first
    // application.
    let mut reg = PeerRegistry::new();
    reg.record_peer(addr(10, 0, 0, 1));
    let mut snap = PeerRegistry::new();
    snap.upsert(addr(10, 0, 0, 2), PeerStatus::Speaker);
    snap.upsert(addr(10, 0, 0, 1), PeerStatus::Player);
    reg.merge(&snap);
    let after_first = entries_of(&reg);
    reg.merge(&snap);
    assert_eq!(entries_of(&reg), after_first);
}

#[test]
fn replace_is_authoritative() {
    // After replace, the registry holds exactly the replacement's entries.
    let mut reg = PeerRegistry::new();
    reg.record_peer(addr(10, 0, 0, 1));
    reg.upsert(addr(10, 0, 0, 3), PeerStatus::Speaker);
    let mut fresh = PeerRegistry::new();
    fresh.record_peer(addr(10, 0, 0, 2));
    reg.replace(&fresh);
    assert_eq!(reg.len(), 1);
    assert!(!reg.contains_addr(addr(10, 0, 0, 1)));
    assert!(!reg.contains_addr(addr(10, 0, 0, 3)));
    assert_eq!(reg.role_of(addr(10, 0, 0, 2)), Some(PeerStatus::Player));
}

#[test]
fn upsert_overwrites_roles() {
    let mut reg = PeerRegistry::new();
    reg.record_peer(addr(10, 0, 0, 1));
    reg.upsert(addr(10, 0, 0, 1), PeerStatus::Speaker);
    assert_eq!(reg.len(), 1);
    assert_eq!(reg.role_of(addr(10, 0, 0, 1)), Some(PeerStatus::Speaker));
}

#[test]
fn absorb_overwrites_and_extends() {
    let mut reg = PeerRegistry::new();
    reg.upsert(addr(10, 0, 0, 1), PeerStatus::Speaker);
    let mut other = PeerRegistry::new();
    other.upsert(addr(10, 0, 0, 1), PeerStatus::Player);
    other.upsert(addr(10, 0, 0, 2), PeerStatus::Speaker);
    reg.absorb(&other);
    assert_eq!(reg.role_of(addr(10, 0, 0, 1)), Some(PeerStatus::Player));
    assert_eq!(reg.role_of(addr(10, 0, 0, 2)), Some(PeerStatus::Speaker));
    assert_eq!(reg.len(), 2);
}

#[test]
fn snapshot_adds_own_entry_with_local_role() {
    let mut reg = PeerRegistry::new();
    reg.record_peer(addr(10, 0, 0, 1));
    let own = addr(192, 168, 1, 9);
    let snap = reg.snapshot(Some(own), true);
    assert_eq!(snap.role_of(own), Some(PeerStatus::Speaker));
    assert_eq!(snap.role_of(addr(10, 0, 0, 1)), Some(PeerStatus::Player));
    assert_eq!(snap.len(), 2);
    // The registry itself is untouched.
    assert_eq!(reg.len(), 1);
}

#[test]
fn snapshot_keeps_existing_own_entry() {
    let own = addr(192, 168, 1, 9);
    let mut reg = PeerRegistry::new();
    reg.upsert(own, PeerStatus::Player);
    let snap = reg.snapshot(Some(own), true);
    assert_eq!(snap.role_of(own), Some(PeerStatus::Player));
    assert_eq!(snap.len(), 1);
}

#[test]
fn snapshot_without_own_address_copies() {
    let mut reg = PeerRegistry::new();
    reg.record_peer(addr(10, 0, 0, 1));
    let snap = reg.snapshot(None, true);
    assert_eq!(entries_of(&snap), entries_of(&reg));
}

#[test]
fn find_speaker_reports_the_speaker() {
    let mut reg = PeerRegistry::new();
    reg.record_peer(addr(10, 0, 0, 1));
    assert_eq!(reg.find_speaker(), None);
    reg.upsert(addr(10, 0, 0, 2), PeerStatus::Speaker);
    assert_eq!(reg.find_speaker(), Some(addr(10, 0, 0, 2)));
}
