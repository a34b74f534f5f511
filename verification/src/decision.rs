//! Leaderless decision rule.
//!
//! Each tick: aggregate the occupation samples; if the mean strictly exceeds
//! the threshold, tie-break against every known peer identity — any peer that
//! sorts strictly lower is assumed to act instead — and, when proceeding,
//! wake one configured host that the registry does not show as present,
//! chosen uniformly at random. The tie-break is a heuristic, not consensus:
//! two nodes with diverged registry views may both act, which this design
//! accepts.

use vstd::prelude::*;

use crate::config::{ConfiguredHost, MacAddress};
use crate::host_info::OtherHost;
use crate::host_occupation::{HostOccupation, OtherHostOccupation};
use crate::peer_map::{lemma_map_of_contains, lemma_map_of_index, PeerMap};
use crate::host_occupation::sum_of_samples;

verus! {

/// Strict lexicographic order on byte strings: compared byte by byte, with a
/// proper prefix sorting before every extension of it.
pub open spec fn lex_lt(a: Seq<u8>, b: Seq<u8>) -> bool
    decreases a.len(),
{
    if b.len() == 0 {
        false
    } else if a.len() == 0 {
        true
    } else if a[0] < b[0] {
        true
    } else if a[0] > b[0] {
        false
    } else {
        lex_lt(a.drop_first(), b.drop_first())
    }
}

/// Byte-wise strict lexicographic comparison of two identities.
#[verifier::loop_isolation(false)]
pub fn bytes_lt(a: &Vec<u8>, b: &Vec<u8>) -> (r: bool)
    ensures
        r == lex_lt(a@, b@),
{
    proof {
        assert(a@.skip(0) =~= a@);
        assert(b@.skip(0) =~= b@);
    }
    let mut i: usize = 0;
    while i < a.len() && i < b.len()
        invariant
            i <= a@.len(),
            i <= b@.len(),
            lex_lt(a@, b@) == lex_lt(a@.skip(i as int), b@.skip(i as int)),
        decreases a@.len() - i,
    {
        if a[i] < b[i] {
            return true;
        }
        if a[i] > b[i] {
            return false;
        }
        proof {
            assert(a@.skip(i as int).drop_first() =~= a@.skip(i as int + 1));
            assert(b@.skip(i as int).drop_first() =~= b@.skip(i as int + 1));
        }
        i += 1;
    }
    a.len() < b.len()
}

/// The tie-break: this node proceeds iff no currently known peer identity
/// sorts strictly lower than its own.
pub open spec fn proceeds(registry: Map<Seq<u8>, OtherHost>, our: Seq<u8>) -> bool {
    !(exists|p: Seq<u8>| registry.dom().contains(p) && lex_lt(p, our))
}

/// Runs the tie-break against every peer the registry currently knows.
#[verifier::loop_isolation(false)]
pub fn should_proceed(map: &PeerMap<OtherHost>, our_peer_id: &Vec<u8>) -> (r: bool)
    ensures
        r == proceeds(map@, our_peer_id@),
{
    let mut i: usize = 0;
    while i < map.entries.len()
        invariant
            i <= map.entries@.len(),
            forall|j: int| 0 <= j < i ==> !lex_lt(map.entries@[j].0@, our_peer_id@),
        decreases map.entries@.len() - i,
    {
        if bytes_lt(&map.entries[i].0, our_peer_id) {
            proof {
                lemma_map_of_contains(map.entries@, map.entries@[i as int].0@);
            }
            return false;
        }
        i += 1;
    }
    proof {
        assert forall|p: Seq<u8>| map@.dom().contains(p) implies !lex_lt(p, our_peer_id@) by {
            lemma_map_of_contains(map.entries@, p);
            let j = choose|j: int| 0 <= j < map.entries@.len() && map.entries@[j].0@ == p;
            assert(!lex_lt(map.entries@[j].0@, our_peer_id@));
        }
    }
    true
}

/// Whether `mac` occurs in a list of addresses.
pub open spec fn mac_in(macs: Seq<MacAddress>, mac: MacAddress) -> bool {
    exists|i: int| 0 <= i < macs.len() && macs[i].bytes@ == mac.bytes@
}

/// Whether some registered peer carries this MAC address.
pub open spec fn mac_present(registry: Map<Seq<u8>, OtherHost>, mac: Seq<u8>) -> bool {
    exists|p: Seq<u8>|
        registry.dom().contains(p) && registry[p].mac_address.bytes@ == mac
}

/// Whether `m` occurs in a list of addresses.
#[verifier::loop_isolation(false)]
fn vec_contains_mac(v: &Vec<MacAddress>, m: &MacAddress) -> (r: bool)
    ensures
        r == mac_in(v@, *m),
{
    let mut i: usize = 0;
    while i < v.len()
        invariant
            i <= v@.len(),
            forall|j: int| 0 <= j < i ==> v@[j].bytes@ != m.bytes@,
        decreases v@.len() - i,
    {
        if v[i].eq_mac(m) {
            proof {
                assert(v@[i as int].bytes@ == m.bytes@);
            }
            return true;
        }
        i += 1;
    }
    false
}

/// Relies on rand's `thread_rng` and `Rng::gen_range` (rand 0.8): a uniformly
/// random index strictly below `len`. `gen_range` panics on an empty range,
/// which the precondition rules out.
#[verifier::external_body]
fn random_index(len: usize) -> (r: usize)
    requires
        len > 0,
    ensures
        r < len,
{
    rand::Rng::gen_range(&mut rand::thread_rng(), 0..len)
}

/// Picks the machine a wake directive will target: one of the available
/// addresses that is not already running, uniformly at random; nothing when
/// every available address is already up. With a single absent address the
/// choice is forced.
#[verifier::loop_isolation(false)]
pub fn select_activation_target(
    already_running_mac_addresses: &Vec<MacAddress>,
    available_mac_addresses: &Vec<MacAddress>,
) -> (r: Option<MacAddress>)
    ensures
        (r is Some) <==> exists|i: int|
            0 <= i < available_mac_addresses@.len() && !mac_in(
                already_running_mac_addresses@,
                available_mac_addresses@[i],
            ),
        r matches Some(m) ==> mac_in(available_mac_addresses@, m) && !mac_in(
            already_running_mac_addresses@,
            m,
        ),
{
    let mut candidates: Vec<MacAddress> = Vec::new();
    let mut i: usize = 0;
    while i < available_mac_addresses.len()
        invariant
            i <= available_mac_addresses@.len(),
            forall|j: int|
                0 <= j < candidates@.len() ==> mac_in(available_mac_addresses@, #[trigger] candidates@[j])
                    && !mac_in(already_running_mac_addresses@, candidates@[j]),
            candidates@.len() > 0 <==> exists|k: int|
                0 <= k < i && !mac_in(
                    already_running_mac_addresses@,
                    #[trigger] available_mac_addresses@[k],
                ),
        decreases available_mac_addresses@.len() - i,
    {
        if !vec_contains_mac(already_running_mac_addresses, &available_mac_addresses[i]) {
            candidates.push(available_mac_addresses[i]);
            proof {
                assert(mac_in(available_mac_addresses@, available_mac_addresses@[i as int]));
            }
        }
        i += 1;
    }
    if candidates.len() == 0 {
        return None;
    }
    let idx = random_index(candidates.len());
    Some(candidates[idx])
}

/// One iteration of the decision loop, as a pure function of the current
/// registry and occupation views, the local CPU sample, the threshold, this
/// node's identity, and the configured wake targets. Returns the MAC address
/// to wake, or nothing when the aggregate is not over the threshold, a peer
/// that sorts lower will act instead, or no configured host is absent.
#[verifier::loop_isolation(false)]
pub fn decision_tick(
    info_map: &PeerMap<OtherHost>,
    occupation_map: &PeerMap<OtherHostOccupation>,
    local_cpu_centipercent: u32,
    occupation_level_percentage: u8,
    our_peer_id: &Vec<u8>,
    hosts: &Vec<ConfiguredHost>,
) -> (r: Option<MacAddress>)
    requires
        info_map.wf(),
        occupation_map.wf(),
    ensures
        (r is Some) <==> (local_cpu_centipercent + sum_of_samples(occupation_map.entries@)
            > occupation_level_percentage * 100 * (occupation_map.entries@.len() + 1) && proceeds(
            info_map@,
            our_peer_id@,
        ) && exists|i: int|
            0 <= i < hosts@.len() && !mac_present(
                info_map@,
                #[trigger] hosts@[i].mac_address.bytes@,
            )),
        r matches Some(m) ==> (exists|i: int|
            0 <= i < hosts@.len() && #[trigger] hosts@[i].mac_address.bytes@ == m.bytes@)
            && !mac_present(info_map@, m.bytes@),
{
    let aggregate = HostOccupation::calculate_total_occupation(
        occupation_map,
        local_cpu_centipercent,
    );
    let sample_capacity = occupation_map.entries.len();
    proof {
        assert(aggregate.sample_count == sample_capacity + 1);
    }
    if !aggregate.exceeds_threshold(occupation_level_percentage) {
        return None;
    }
    if !should_proceed(info_map, our_peer_id) {
        return None;
    }
    proof {
        lemma_map_of_index(info_map.entries@);
    }
    let mut already_running: Vec<MacAddress> = Vec::new();
    let mut i: usize = 0;
    while i < info_map.entries.len()
        invariant
            i <= info_map.entries@.len(),
            already_running@.len() == i,
            forall|j: int|
                0 <= j < i ==> #[trigger] already_running@[j].bytes@
                    == info_map.entries@[j].1.mac_address.bytes@,
        decreases info_map.entries@.len() - i,
    {
        already_running.push(info_map.entries[i].1.mac_address);
        i += 1;
    }
    let mut available: Vec<MacAddress> = Vec::new();
    let mut j: usize = 0;
    while j < hosts.len()
        invariant
            j <= hosts@.len(),
            available@.len() == j,
            forall|k: int|
                0 <= k < j ==> #[trigger] available@[k].bytes@ == hosts@[k].mac_address.bytes@,
        decreases hosts@.len() - j,
    {
        available.push(hosts[j].mac_address);
        j += 1;
    }
    proof {
        assert forall|m: MacAddress|
            #[trigger] mac_in(already_running@, m) == mac_present(info_map@, m.bytes@) by {
            if mac_in(already_running@, m) {
                let jj = choose|jj: int|
                    0 <= jj < already_running@.len() && already_running@[jj].bytes@ == m.bytes@;
                assert(info_map@.dom().contains(info_map.entries@[jj].0@));
                assert(info_map@[info_map.entries@[jj].0@].mac_address.bytes@ == m.bytes@);
            }
            if mac_present(info_map@, m.bytes@) {
                let p = choose|p: Seq<u8>|
                    info_map@.dom().contains(p) && info_map@[p].mac_address.bytes@ == m.bytes@;
                lemma_map_of_contains(info_map.entries@, p);
                let jj = choose|jj: int|
                    0 <= jj < info_map.entries@.len() && info_map.entries@[jj].0@ == p;
                assert(info_map@[p] == info_map.entries@[jj].1);
                assert(already_running@[jj].bytes@ == m.bytes@);
            }
        }
    }
    let r = select_activation_target(&already_running, &available);
    proof {
        assert forall|i2: int| 0 <= i2 < hosts@.len() implies (mac_in(
            already_running@,
            available@[i2],
        ) == mac_present(info_map@, #[trigger] hosts@[i2].mac_address.bytes@)) by {
            assert(available@[i2].bytes@ == hosts@[i2].mac_address.bytes@);
            assert(mac_in(already_running@, available@[i2]) == mac_present(
                info_map@,
                available@[i2].bytes@,
            ));
        }
        if r is Some {
            let m = r->Some_0;
            let ii = choose|ii: int|
                0 <= ii < available@.len() && available@[ii].bytes@ == m.bytes@;
            assert(hosts@[ii].mac_address.bytes@ == m.bytes@);
            assert(mac_in(already_running@, m) == mac_present(info_map@, m.bytes@));
        }
        if exists|i2: int|
            0 <= i2 < hosts@.len() && !mac_present(
                info_map@,
                #[trigger] hosts@[i2].mac_address.bytes@,
            ) {
            let ii = choose|ii: int|
                0 <= ii < hosts@.len() && !mac_present(
                    info_map@,
                    #[trigger] hosts@[ii].mac_address.bytes@,
                );
            assert(!mac_in(already_running@, available@[ii]));
        }
    }
    r
}

} // verus!
