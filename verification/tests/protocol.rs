use dyn_wol::codec::{extract_topic_message, ExtractedTopicMessage, TopicMessage};
use dyn_wol::config::MacAddress;
use dyn_wol::host_info::{broadcast_host_info, HostInfo};
use dyn_wol::host_occupation::{HostOccupation, HostOccupationMessage};

const TOKEN: &str = "a-shared-token-of-at-least-32-characters";
const OTHER_TOKEN: &str = "a-different-token-also-32-characters-long";

fn mac(last: u8) -> MacAddress {
    MacAddress {
        bytes: [0x02, 0x11, 0x22, 0x33, 0x44, last],
    }
}

fn info_payload(token: &str, last: u8, name: &str) -> Vec<u8> {
    broadcast_host_info(token, mac(last), name.to_string()).expect("hashing the token succeeds")
}

#[test]
fn hashed_token_verifies_against_same_token() {
    let payload = info_payload(TOKEN, 1, "alpha");
    let topic = "dyn-wol-host-info".to_string();
    let extracted = match extract_topic_message(b"peer-a".to_vec(), &topic, &payload) {
        TopicMessage::HostInfo(em) => em,
        _ => panic!("host-info payload was not claimed"),
    };
    let mut registry = HostInfo::new();
    registry.handle_incoming_topic_message(extracted, TOKEN);
    assert!(registry.peer_id_is_registered(&b"peer-a".to_vec()));
}

#[test]
fn hashed_token_fails_against_other_token() {
    // Fresh salts on both sides: a hash of one token never verifies against
    // a different token, whatever salt either message used.
    for _ in 0..3 {
        let payload = info_payload(TOKEN, 1, "alpha");
        let topic = "dyn-wol-host-info".to_string();
        let extracted = match extract_topic_message(b"peer-a".to_vec(), &topic, &payload) {
            TopicMessage::HostInfo(em) => em,
            _ => panic!("host-info payload was not claimed"),
        };
        let mut registry = HostInfo::new();
        registry.handle_incoming_topic_message(extracted, OTHER_TOKEN);
        assert!(!registry.peer_id_is_registered(&b"peer-a".to_vec()));
    }
}

#[test]
fn host_info_round_trip_keeps_all_fields() {
    let payload = info_payload(TOKEN, 7, "gamma-host");
    let topic = "dyn-wol-host-info".to_string();
    let extracted = match extract_topic_message(b"peer-g".to_vec(), &topic, &payload) {
        TopicMessage::HostInfo(em) => em,
        _ => panic!("host-info payload was not claimed"),
    };
    assert_eq!(extracted.peer_id, b"peer-g".to_vec());
    assert_eq!(extracted.message.mac_address.bytes, mac(7).bytes);
    assert_eq!(extracted.message.name, "gamma-host");
    // The decoded token hash still verifies against the original token.
    let mut registry = HostInfo::new();
    registry.handle_incoming_topic_message(extracted, TOKEN);
    assert!(registry.peer_id_is_registered(&b"peer-g".to_vec()));
}

#[test]
fn occupation_topic_claims_payload_whole() {
    let topic = "dyn-wol-host-occupation".to_string();
    let payload: Vec<u8> = vec![1, 2, 3, 4];
    match extract_topic_message(b"peer-o".to_vec(), &topic, &payload) {
        TopicMessage::HostOccupation(em) => {
            assert_eq!(em.peer_id, b"peer-o".to_vec());
            assert_eq!(em.message, payload);
        }
        _ => panic!("occupation payload was not claimed"),
    }
}

#[test]
fn unknown_topic_is_unclaimed() {
    let topic = "dyn-wol-something-else".to_string();
    let payload = info_payload(TOKEN, 1, "alpha");
    match extract_topic_message(b"peer-a".to_vec(), &topic, &payload) {
        TopicMessage::Unclaimed => {}
        _ => panic!("unknown topic must be unclaimed"),
    }
}

#[test]
fn malformed_host_info_payload_is_unclaimed() {
    let topic = "dyn-wol-host-info".to_string();
    let payload: Vec<u8> = vec![0xff, 0x00, 0x13];
    match extract_topic_message(b"peer-a".to_vec(), &topic, &payload) {
        TopicMessage::Unclaimed => {}
        _ => panic!("malformed payload must be unclaimed"),
    }
}

#[test]
fn forged_map_header_is_unclaimed_not_a_crash() {
    // A root map whose keys vector claims 200 entries far past the buffer:
    // every address the decoder follows must be bounds-checked, so this is
    // dropped like any other malformed payload.
    let topic = "dyn-wol-host-info".to_string();
    let payload: Vec<u8> = vec![0, 1, 1, 200, 0, 1, 36, 1];
    match extract_topic_message(b"peer-a".to_vec(), &topic, &payload) {
        TopicMessage::Unclaimed => {}
        _ => panic!("forged payload must be unclaimed"),
    }
}

#[test]
fn truncated_and_garbage_payloads_are_unclaimed() {
    let topic = "dyn-wol-host-info".to_string();
    let mut cases: Vec<Vec<u8>> = vec![vec![], vec![0], vec![0, 0], vec![255; 64]];
    // A valid payload cut short at every prefix length must also be refused.
    let good = info_payload(TOKEN, 3, "delta");
    for cut in 0..good.len() {
        cases.push(good[..cut].to_vec());
    }
    for payload in cases {
        match extract_topic_message(b"peer-a".to_vec(), &topic, &payload) {
            TopicMessage::Unclaimed => {}
            _ => panic!("malformed payload must be unclaimed"),
        }
    }
}

#[test]
fn authentication_failure_leaves_sender_out_of_registry() {
    let mut registry = HostInfo::new();
    let bad = ExtractedTopicMessage {
        peer_id: b"peer-bad".to_vec(),
        message: dyn_wol::host_info::HostInfoMessage {
            token_hash: "not a phc hash at all".to_string(),
            mac_address: mac(9),
            name: "intruder".to_string(),
        },
    };
    registry.handle_incoming_topic_message(bad, TOKEN);
    assert!(!registry.peer_id_is_registered(&b"peer-bad".to_vec()));
}

#[test]
fn occupation_from_unregistered_peer_is_dropped() {
    // The occupation message arrives before any host-info message ever did
    // for that identity: it must be dropped, order notwithstanding.
    let registry = HostInfo::new();
    let mut occupation = HostOccupation::new();
    occupation.handle_incoming_topic_message(
        ExtractedTopicMessage {
            peer_id: b"peer-x".to_vec(),
            message: HostOccupationMessage {
                cpu_centipercent: 5000,
            },
        },
        &registry,
    );
    assert_eq!(occupation.get_map().entries.len(), 0);
}

#[test]
fn occupation_from_registered_peer_is_cached() {
    let payload = info_payload(TOKEN, 2, "beta");
    let topic = "dyn-wol-host-info".to_string();
    let extracted = match extract_topic_message(b"peer-b".to_vec(), &topic, &payload) {
        TopicMessage::HostInfo(em) => em,
        _ => panic!("host-info payload was not claimed"),
    };
    let mut registry = HostInfo::new();
    registry.handle_incoming_topic_message(extracted, TOKEN);

    let mut occupation = HostOccupation::new();
    occupation.handle_incoming_topic_message(
        ExtractedTopicMessage {
            peer_id: b"peer-b".to_vec(),
            message: HostOccupationMessage {
                cpu_centipercent: 4200,
            },
        },
        &registry,
    );
    let entries = &occupation.get_map().entries;
    assert_eq!(entries.len(), 1);
    assert_eq!(entries[0].0, b"peer-b".to_vec());
    assert_eq!(entries[0].1.cpu_centipercent, 4200);
}
