use dyn_wol::config::{AppConfig, ConfigError, ConfiguredHost, MacAddress};
use dyn_wol::config::validate_config;
use dyn_wol::decision::{bytes_lt, decision_tick, select_activation_target, should_proceed};
use dyn_wol::host_info::OtherHost;
use dyn_wol::host_occupation::{HostOccupation, OtherHostOccupation};
use dyn_wol::peer_map::PeerMap;

fn mac(last: u8) -> MacAddress {
    MacAddress {
        bytes: [0x02, 0x11, 0x22, 0x33, 0x44, last],
    }
}

fn occupation_map(samples: &[(&[u8], u32)]) -> PeerMap<OtherHostOccupation> {
    let mut map = PeerMap::new();
    for (peer, cpu) in samples {
        map.insert(
            peer.to_vec(),
            OtherHostOccupation {
                cpu_centipercent: *cpu,
            },
        );
    }
    map
}

fn info_map(peers: &[(&[u8], u8)]) -> PeerMap<OtherHost> {
    let mut map = PeerMap::new();
    for (peer, last) in peers {
        map.insert(
            peer.to_vec(),
            OtherHost {
                name: "host".to_string(),
                mac_address: mac(*last),
            },
        );
    }
    map
}

#[test]
fn aggregate_is_exact_mean_of_local_and_peers() {
    // Local 50%, peers at 40% and 60%: the mean is exactly 50.0.
    let map = occupation_map(&[(b"p1", 4000), (b"p2", 6000)]);
    let agg = HostOccupation::calculate_total_occupation(&map, 5000);
    assert_eq!(agg.sum_centipercent, 15000);
    assert_eq!(agg.sample_count, 3);
    assert_eq!(agg.sum_centipercent % agg.sample_count, 0);
    assert_eq!(agg.sum_centipercent / agg.sample_count, 5000);
    let mean_percent = agg.sum_centipercent as f64 / (agg.sample_count as f64 * 100.0);
    assert_eq!(mean_percent, 50.0);
}

#[test]
fn aggregate_with_no_peers_is_local_sample() {
    let map = occupation_map(&[]);
    let agg = HostOccupation::calculate_total_occupation(&map, 3725);
    assert_eq!(agg.sum_centipercent, 3725);
    assert_eq!(agg.sample_count, 1);
}

#[test]
fn threshold_comparison_is_strict_and_exact() {
    let map = occupation_map(&[(b"p1", 8000)]);
    let agg = HostOccupation::calculate_total_occupation(&map, 8000);
    // Mean is exactly 80%: not strictly above an 80% threshold.
    assert!(!agg.exceeds_threshold(80));
    assert!(agg.exceeds_threshold(79));
    let above = HostOccupation::calculate_total_occupation(&map, 8002);
    assert!(above.exceeds_threshold(80));
}

#[test]
fn tiebreak_lowest_identity_proceeds() {
    // Known peers b, a, c: the node named "a" proceeds, "z" stands down.
    let registry = info_map(&[(b"b", 1), (b"a", 2), (b"c", 3)]);
    assert!(should_proceed(&registry, &b"a".to_vec()));
    assert!(!should_proceed(&registry, &b"z".to_vec()));
}

#[test]
fn tiebreak_with_no_peers_proceeds() {
    let registry = info_map(&[]);
    assert!(should_proceed(&registry, &b"anything".to_vec()));
}

#[test]
fn byte_order_is_lexicographic() {
    assert!(bytes_lt(&b"a".to_vec(), &b"b".to_vec()));
    assert!(!bytes_lt(&b"b".to_vec(), &b"a".to_vec()));
    assert!(!bytes_lt(&b"a".to_vec(), &b"a".to_vec()));
    assert!(bytes_lt(&b"a".to_vec(), &b"ab".to_vec()));
    assert!(!bytes_lt(&b"ab".to_vec(), &b"a".to_vec()));
}

#[test]
fn sole_absent_host_is_selected_deterministically() {
    // Configured hosts {A, B}, mac A already present: the candidate set is
    // exactly {B}, so the random pick is forced.
    let running = vec![mac(0xaa)];
    let available = vec![mac(0xaa), mac(0xbb)];
    for _ in 0..5 {
        let chosen = select_activation_target(&running, &available).expect("one candidate");
        assert_eq!(chosen.bytes, mac(0xbb).bytes);
    }
}

#[test]
fn no_candidate_when_all_hosts_present() {
    let running = vec![mac(0xaa), mac(0xbb)];
    let available = vec![mac(0xaa), mac(0xbb)];
    assert!(select_activation_target(&running, &available).is_none());
}

#[test]
fn selection_always_picks_an_absent_host() {
    let running = vec![mac(0x01)];
    let available = vec![mac(0x01), mac(0x02), mac(0x03)];
    for _ in 0..20 {
        let chosen = select_activation_target(&running, &available).expect("two candidates");
        assert!(chosen.bytes == mac(0x02).bytes || chosen.bytes == mac(0x03).bytes);
    }
}

#[test]
fn decision_tick_wakes_sole_absent_host_when_hot() {
    let registry = info_map(&[(b"peer-b", 0xaa)]);
    let occupation = occupation_map(&[(b"peer-b", 9500)]);
    let hosts = vec![
        ConfiguredHost {
            name: "a".to_string(),
            mac_address: mac(0xaa),
        },
        ConfiguredHost {
            name: "b".to_string(),
            mac_address: mac(0xbb),
        },
    ];
    // Local 95%, peer 95%: mean 95% > 80%; our identity sorts lowest.
    let chosen = decision_tick(&registry, &occupation, 9500, 80, &b"peer-a".to_vec(), &hosts)
        .expect("must act");
    assert_eq!(chosen.bytes, mac(0xbb).bytes);
}

#[test]
fn decision_tick_does_nothing_below_threshold() {
    let registry = info_map(&[(b"peer-b", 0xaa)]);
    let occupation = occupation_map(&[(b"peer-b", 1000)]);
    let hosts = vec![ConfiguredHost {
        name: "b".to_string(),
        mac_address: mac(0xbb),
    }];
    assert!(decision_tick(&registry, &occupation, 1000, 80, &b"peer-a".to_vec(), &hosts).is_none());
}

#[test]
fn decision_tick_stands_down_for_lower_peer() {
    let registry = info_map(&[(b"peer-a", 0xaa)]);
    let occupation = occupation_map(&[(b"peer-a", 9500)]);
    let hosts = vec![ConfiguredHost {
        name: "b".to_string(),
        mac_address: mac(0xbb),
    }];
    // "peer-a" sorts strictly below "peer-z": this node assumes that peer acts.
    assert!(decision_tick(&registry, &occupation, 9500, 80, &b"peer-z".to_vec(), &hosts).is_none());
}

#[test]
fn decision_tick_does_nothing_with_no_absent_host() {
    let registry = info_map(&[(b"peer-b", 0xbb)]);
    let occupation = occupation_map(&[(b"peer-b", 9500)]);
    let hosts = vec![ConfiguredHost {
        name: "b".to_string(),
        mac_address: mac(0xbb),
    }];
    assert!(decision_tick(&registry, &occupation, 9500, 80, &b"peer-a".to_vec(), &hosts).is_none());
}

#[test]
fn config_default_values() {
    let c = AppConfig::default();
    assert_eq!(c.host_ip, "0.0.0.0");
    assert_eq!(c.port, "8080");
    assert_eq!(c.token, "");
    assert!(c.hosts.is_empty());
    assert_eq!(c.occupation_level_percentage, 80);
}

#[test]
fn empty_token_is_fatal() {
    let c = AppConfig::default();
    let err = validate_config(&c).unwrap_err();
    assert_eq!(err, ConfigError::EmptyToken);
    assert!(err.message().contains("empty"));
}

#[test]
fn short_token_is_fatal() {
    let mut c = AppConfig::default();
    c.token = "only-31-characters-long-token!!".to_string();
    assert_eq!(c.token.len(), 31);
    let err = validate_config(&c).unwrap_err();
    assert_eq!(err, ConfigError::TokenTooShort);
    assert!(err.message().contains("too short"));
}

#[test]
fn long_enough_token_is_accepted() {
    let mut c = AppConfig::default();
    c.token = "exactly-32-characters-long-token".to_string();
    assert_eq!(c.token.len(), 32);
    assert!(validate_config(&c).is_ok());
}

#[test]
fn records_are_overwritten_never_merged() {
    let mut map = info_map(&[(b"p", 0x01)]);
    map.insert(
        b"p".to_vec(),
        OtherHost {
            name: "renamed".to_string(),
            mac_address: mac(0x02),
        },
    );
    assert_eq!(map.entries.len(), 1);
    assert_eq!(map.entries[0].1.name, "renamed");
    assert_eq!(map.entries[0].1.mac_address.bytes, mac(0x02).bytes);
}
