use std::collections::HashMap;

use unison::addr::PeerAddr;
use unison::codec::{
    decode_initiation_message, decode_uni_packet, encode_discovery_signal,
    encode_initiation_message, encode_uni_packet, InitiationMessage, UniPacket,
};
use unison::registry::{PeerRegistry, PeerStatus};

fn addr(o0: u8, o1: u8, o2: u8, o3: u8) -> PeerAddr {
    PeerAddr { o0, o1, o2, o3 }
}

fn registry_of(entries: &[(PeerAddr, PeerStatus)]) -> PeerRegistry {
    let mut reg = PeerRegistry::new();
    for (a, st) in entries {
        if matches!(st, PeerStatus::Player) {
            reg.record_peer(*a);
        } else {
            reg.upsert(*a, PeerStatus::Speaker);
        }
    }
    reg
}

fn entries_of(reg: &PeerRegistry) -> Vec<(PeerAddr, PeerStatus)> {
    let mut out = Vec::new();
    let mut i = 0;
    while i < reg.len() {
        out.push(reg.entry_at(i));
        i += 1;
    }
    out
}

#[test]
fn discovery_signal_round_trip() {
    let bytes = encode_discovery_signal();
    assert_eq!(bytes, vec![0u8, 0, 0, 0]);
    assert_eq!(decode_uni_packet(&bytes), Some(UniPacket::DiscoverySignal));
}

#[test]
fn uni_packet_encoding_matches_signal() {
    assert_eq!(encode_uni_packet(&UniPacket::DiscoverySignal), encode_discovery_signal());
}

#[test]
fn discovery_signal_matches_reference_serializer() {
    // The variant index of the only variant, as the compact serializer the
    // protocol was defined against writes it.
    let reference = bincode::serialize(&0u32).unwrap();
    assert_eq!(encode_discovery_signal(), reference);
}

#[test]
fn signal_decoder_rejects_deviations() {
    assert_eq!(decode_uni_packet(&vec![]), None);
    assert_eq!(decode_uni_packet(&vec![0, 0, 0]), None);
    assert_eq!(decode_uni_packet(&vec![1, 0, 0, 0]), None);
    assert_eq!(decode_uni_packet(&vec![0, 0, 0, 0, 0]), None);
}

#[test]
fn initiation_round_trip_empty() {
    let msg = InitiationMessage { ip_map: PeerRegistry::new() };
    let bytes = encode_initiation_message(&msg);
    let back = decode_initiation_message(&bytes).expect("decodes");
    assert_eq!(back.ip_map.len(), 0);
}

#[test]
fn initiation_round_trip_two_entries() {
    let reg = registry_of(&[
        (addr(10, 0, 0, 5), PeerStatus::Player),
        (addr(192, 168, 1, 2), PeerStatus::Speaker),
    ]);
    let msg = InitiationMessage { ip_map: reg };
    let bytes = encode_initiation_message(&msg);
    let back = decode_initiation_message(&bytes).expect("decodes");
    assert_eq!(entries_of(&back.ip_map), entries_of(&msg.ip_map));
}

#[test]
fn initiation_matches_reference_serializer() {
    // One entry so that map iteration order cannot differ. A unit enum
    // variant and a plain u32 of the variant's index serialize alike, so a
    // string-keyed map of u32 mirrors the wire form of the address map.
    let mut mirror: HashMap<String, u32> = HashMap::new();
    mirror.insert("10.0.0.5".to_string(), 0u32);
    let reference = bincode::serialize(&mirror).unwrap();

    let reg = registry_of(&[(addr(10, 0, 0, 5), PeerStatus::Player)]);
    let bytes = encode_initiation_message(&InitiationMessage { ip_map: reg });
    assert_eq!(bytes, reference);
}

#[test]
fn reference_deserializer_reads_our_encoding() {
    let reg = registry_of(&[
        (addr(10, 0, 0, 5), PeerStatus::Player),
        (addr(192, 168, 1, 2), PeerStatus::Speaker),
    ]);
    let bytes = encode_initiation_message(&InitiationMessage { ip_map: reg });
    let mirror: HashMap<String, u32> = bincode::deserialize(&bytes).unwrap();
    assert_eq!(mirror.len(), 2);
    assert_eq!(mirror.get("10.0.0.5"), Some(&0u32));
    assert_eq!(mirror.get("192.168.1.2"), Some(&1u32));
}

#[test]
fn we_read_reference_serializer_encoding() {
    let mut mirror: HashMap<String, u32> = HashMap::new();
    mirror.insert("192.168.1.2".to_string(), 1u32);
    let bytes = bincode::serialize(&mirror).unwrap();
    let back = decode_initiation_message(&bytes).expect("decodes");
    assert_eq!(back.ip_map.len(), 1);
    assert_eq!(back.ip_map.role_of(addr(192, 168, 1, 2)), Some(PeerStatus::Speaker));
}

#[test]
fn initiation_decoder_rejects_trailing_bytes() {
    let reg = registry_of(&[(addr(10, 0, 0, 5), PeerStatus::Player)]);
    let mut bytes = encode_initiation_message(&InitiationMessage { ip_map: reg });
    bytes.push(0);
    assert!(decode_initiation_message(&bytes).is_none());
}

#[test]
fn initiation_decoder_rejects_truncation() {
    let reg = registry_of(&[(addr(10, 0, 0, 5), PeerStatus::Player)]);
    let mut bytes = encode_initiation_message(&InitiationMessage { ip_map: reg });
    bytes.pop();
    assert!(decode_initiation_message(&bytes).is_none());
    assert!(decode_initiation_message(&vec![1, 2, 3]).is_none());
}

#[test]
fn initiation_decoder_rejects_unknown_role_tag() {
    let mut mirror: HashMap<String, u32> = HashMap::new();
    mirror.insert("10.0.0.5".to_string(), 2u32);
    let bytes = bincode::serialize(&mirror).unwrap();
    assert!(decode_initiation_message(&bytes).is_none());
}

#[test]
fn initiation_decoder_rejects_non_canonical_key() {
    let mut mirror: HashMap<String, u32> = HashMap::new();
    mirror.insert("010.0.0.5".to_string(), 0u32);
    let bytes = bincode::serialize(&mirror).unwrap();
    assert!(decode_initiation_message(&bytes).is_none());
}

#[test]
fn initiation_decoder_rejects_duplicate_keys() {
    // Two identical single-entry bodies under a count of two.
    let reg = registry_of(&[(addr(10, 0, 0, 5), PeerStatus::Player)]);
    let one = encode_initiation_message(&InitiationMessage { ip_map: reg });
    let body = &one[8..];
    let mut bytes = vec![2u8, 0, 0, 0, 0, 0, 0, 0];
    bytes.extend_from_slice(body);
    bytes.extend_from_slice(body);
    assert!(decode_initiation_message(&bytes).is_none());
}
