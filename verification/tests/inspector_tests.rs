use unison::addr::PeerAddr;
use unison::discovery::get_ip_map;
use unison::iface::{get_broadcast_address, resolve_own_address};
use unison::registry::{PeerRegistry, PeerStatus};

#[test]
fn broadcast_address_is_always_usable() {
    // Enumeration runs against the real interfaces of this machine; whatever
    // they are, some address comes back, the limited broadcast at worst.
    let addr = get_broadcast_address().expect("interface enumeration works");
    let _ = addr;
}

#[test]
fn own_address_resolution_runs() {
    // Machine-dependent: a private address may or may not exist, but the
    // resolution itself must not fail.
    if let Some(own) = resolve_own_address() {
        let a: PeerAddr = own;
        assert!(a.o0 == 10 || (a.o0 == 192 && a.o1 == 168) || (a.o0 == 172 && (16..=31).contains(&a.o1)));
    }
}

#[test]
fn ip_map_snapshot_keeps_recorded_peers() {
    let mut reg = PeerRegistry::new();
    let peer = PeerAddr { o0: 10, o1: 0, o2: 0, o3: 42 };
    reg.record_peer(peer);
    let snap = get_ip_map(&reg, true).expect("interface enumeration works");
    assert_eq!(snap.role_of(peer), Some(PeerStatus::Player));
    // The snapshot may add at most the machine's own resolved address.
    assert!(snap.len() == 1 || snap.len() == 2);
}
