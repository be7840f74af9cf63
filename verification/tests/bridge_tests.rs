use unison::addr::PeerAddr;
use unison::bridge::{frames_sent_before_failure, plan_relay, run_speaker_connection,
    speaker_frame_action, speaker_should_listen, FrameAction, FrameEvent, RelayPlan};
use unison::iface::{select_broadcast_address, select_own_address, NetInterface, V4Net};
use unison::registry::{PeerRegistry, PeerStatus};
use unison::state::UnisonApp;

fn addr(o0: u8, o1: u8, o2: u8, o3: u8) -> PeerAddr {
    PeerAddr { o0, o1, o2, o3 }
}

fn iface(name: &str, is_loopback: bool, v4: Option<(u32, u32)>) -> NetInterface {
    NetInterface {
        name: name.as_bytes().to_vec(),
        is_loopback,
        v4: v4.map(|(ip, netmask)| V4Net { ip, netmask }),
    }
}

#[test]
fn speaker_role_makes_relay_a_noop() {
    let mut reg = PeerRegistry::new();
    reg.upsert(addr(10, 0, 0, 2), PeerStatus::Speaker);
    assert_eq!(plan_relay(true, &reg), RelayPlan::LocalIsSpeaker);
}

#[test]
fn no_speaker_entry_means_no_connection() {
    // Player role with zero speaker entries: a successful no-op, no
    // connection attempted.
    let mut reg = PeerRegistry::new();
    reg.record_peer(addr(10, 0, 0, 1));
    reg.record_peer(addr(10, 0, 0, 2));
    assert_eq!(plan_relay(false, &reg), RelayPlan::NoSpeaker);
}

#[test]
fn relay_connects_to_the_recorded_speaker() {
    let mut reg = PeerRegistry::new();
    reg.record_peer(addr(10, 0, 0, 1));
    reg.upsert(addr(10, 0, 0, 2), PeerStatus::Speaker);
    assert_eq!(plan_relay(false, &reg), RelayPlan::Connect(addr(10, 0, 0, 2)));
}

#[test]
fn only_the_speaker_listens() {
    assert!(speaker_should_listen(true));
    assert!(!speaker_should_listen(false));
}

#[test]
fn frame_actions_follow_the_event() {
    assert_eq!(speaker_frame_action(&FrameEvent::BinaryDecodable), FrameAction::Enqueue);
    assert_eq!(speaker_frame_action(&FrameEvent::BinaryUndecodable), FrameAction::DropFrame);
    assert_eq!(speaker_frame_action(&FrameEvent::NonBinary), FrameAction::Ignore);
    assert_eq!(speaker_frame_action(&FrameEvent::TransportError), FrameAction::EndConnection);
}

#[test]
fn undecodable_frame_keeps_the_connection_open() {
    // A frame that fails to decode is dropped; the following valid frames
    // still play.
    let events = vec![
        FrameEvent::BinaryDecodable,
        FrameEvent::BinaryUndecodable,
        FrameEvent::BinaryDecodable,
        FrameEvent::BinaryDecodable,
    ];
    assert_eq!(run_speaker_connection(&events), 3);
}

#[test]
fn transport_error_ends_the_connection() {
    let events = vec![
        FrameEvent::BinaryDecodable,
        FrameEvent::NonBinary,
        FrameEvent::TransportError,
        FrameEvent::BinaryDecodable,
    ];
    assert_eq!(run_speaker_connection(&events), 1);
}

#[test]
fn send_loop_stops_at_first_failure() {
    assert_eq!(frames_sent_before_failure(&vec![true, true, false, true]), 2);
    assert_eq!(frames_sent_before_failure(&vec![]), 0);
    assert_eq!(frames_sent_before_failure(&vec![false]), 0);
}

#[test]
fn fresh_app_state_is_a_player() {
    let app = UnisonApp::new();
    assert!(!app.is_speaker);
    assert!(!app.is_streaming);
    assert!(app.is_player());
    assert_eq!(app.local_role(), PeerStatus::Player);
}

#[test]
fn speaker_flag_flips_the_role() {
    let mut app = UnisonApp::new();
    app.is_speaker = true;
    assert!(!app.is_player());
    assert_eq!(app.local_role(), PeerStatus::Speaker);
}

#[test]
fn broadcast_falls_back_to_limited_broadcast() {
    assert_eq!(select_broadcast_address(&vec![]), addr(255, 255, 255, 255));
    let only_loopback = vec![iface("lo", true, Some((0x7f000001, 0xff000000)))];
    assert_eq!(select_broadcast_address(&only_loopback), addr(255, 255, 255, 255));
}

#[test]
fn broadcast_is_ip_or_not_netmask() {
    let ifaces = vec![iface("enp3s0", false, Some((0xc0a80142, 0xffffff00)))];
    assert_eq!(select_broadcast_address(&ifaces), addr(192, 168, 1, 255));
}

#[test]
fn broadcast_skips_vpn_and_zero_netmask() {
    let ifaces = vec![
        iface("vpn0", false, Some((0x0a000001, 0xffffff00))),
        iface("MyVirtualNet", false, Some((0x0a000002, 0xffffff00))),
        iface("tun0", false, Some((0x0a000003, 0))),
        iface("docker0", false, Some((0x0a000004, 0xffff0000))),
    ];
    assert_eq!(select_broadcast_address(&ifaces), addr(10, 0, 255, 255));
}

#[test]
fn wired_interface_overrides_an_earlier_candidate() {
    let ifaces = vec![
        iface("docker0", false, Some((0x0a000004, 0xffffff00))),
        iface("eth0", false, Some((0xc0a80105, 0xffffff00))),
        iface("br0", false, Some((0x0a000005, 0xffffff00))),
    ];
    assert_eq!(select_broadcast_address(&ifaces), addr(192, 168, 1, 255));
}

#[test]
fn own_address_prefers_192_168() {
    let ifaces = vec![
        iface("lo", true, Some((0x7f000001, 0xff000000))),
        iface("eth0", false, Some((0x0a00002a, 0xff000000))),
        iface("wlan0", false, Some((0xc0a8010b, 0xffffff00))),
    ];
    assert_eq!(select_own_address(&ifaces), Some(addr(192, 168, 1, 11)));
}

#[test]
fn own_address_none_without_private_range() {
    let ifaces = vec![
        iface("lo", true, Some((0x7f000001, 0xff000000))),
        iface("eth0", false, Some((0x08080808, 0xffffff00))),
    ];
    assert_eq!(select_own_address(&ifaces), None);
}

#[test]
fn own_address_first_private_wins_without_192_168() {
    let ifaces = vec![
        iface("eth0", false, Some((0x0a000001, 0xff000000))),
        iface("eth1", false, Some((0xac10000a, 0xffff0000))),
    ];
    assert_eq!(select_own_address(&ifaces), Some(addr(10, 0, 0, 1)));
}
