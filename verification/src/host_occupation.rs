//! Occupation aggregator.
//!
//! Peers broadcast their CPU load; a sample is cached only for peers already
//! present in the authenticated registry, and the aggregate is the mean of
//! the local sample and every cached peer sample. Loads are held in
//! hundredths of a percent, so the aggregate is computed exactly: it is kept
//! as a sum and a count rather than as a rounded quotient.

use vstd::prelude::*;

use crate::codec::ExtractedTopicMessage;
use crate::host_info::HostInfo;
use crate::peer_map::{lemma_map_of_index, lemma_map_of_len, map_of, PeerMap};

verus! {

/// A host-occupation payload in decoded form: CPU load in hundredths of a
/// percent. The wire carries a 32-bit float percentage; the caller that
/// decodes the wire converts it to this fixed-point form.
pub struct HostOccupationMessage {
    pub cpu_centipercent: u32,
}

/// A peer's last reported CPU load, in hundredths of a percent.
pub struct OtherHostOccupation {
    pub cpu_centipercent: u32,
}

/// The occupation cache: peer identity bytes to that peer's last accepted
/// sample, abstracted as a `Map<Seq<u8>, OtherHostOccupation>`.
pub struct HostOccupation {
    map: PeerMap<OtherHostOccupation>,
}

/// The aggregate occupation over the local sample and every cached peer
/// sample, as an exact rational: `sum_centipercent / sample_count` is the
/// mean load in hundredths of a percent.
pub struct AggregateOccupation {
    pub sum_centipercent: u128,
    pub sample_count: u128,
}

/// Total load of a sequence of cached samples, in hundredths of a percent.
pub open spec fn sum_of_samples(s: Seq<(Vec<u8>, OtherHostOccupation)>) -> int
    decreases s.len(),
{
    if s.len() == 0 {
        0
    } else {
        sum_of_samples(s.drop_last()) + s.last().1.cpu_centipercent
    }
}

/// Each sample fits in 32 bits, so the total is bounded by the count.
proof fn lemma_sum_of_samples_bound(s: Seq<(Vec<u8>, OtherHostOccupation)>)
    ensures
        0 <= sum_of_samples(s) <= s.len() * 0xffff_ffff,
    decreases s.len(),
{
    if s.len() > 0 {
        lemma_sum_of_samples_bound(s.drop_last());
    }
}

/// Overwriting one sample shifts the total by the difference of the two.
proof fn lemma_sum_of_samples_update(
    s: Seq<(Vec<u8>, OtherHostOccupation)>,
    i: int,
    e: (Vec<u8>, OtherHostOccupation),
)
    requires
        0 <= i < s.len(),
    ensures
        sum_of_samples(s.update(i, e)) == sum_of_samples(s) - s[i].1.cpu_centipercent
            + e.1.cpu_centipercent,
    decreases s.len(),
{
    let su = s.update(i, e);
    if i == s.len() - 1 {
        assert(su.drop_last() =~= s.drop_last());
        assert(su.last() == e);
    } else {
        lemma_sum_of_samples_update(s.drop_last(), i, e);
        assert(su.drop_last() =~= s.drop_last().update(i, e));
        assert(su.last() == s.last());
        assert(s.drop_last()[i] == s[i]);
    }
}

/// Appending a sample adds exactly its load to the total.
proof fn lemma_sum_of_samples_push(
    s: Seq<(Vec<u8>, OtherHostOccupation)>,
    e: (Vec<u8>, OtherHostOccupation),
)
    ensures
        sum_of_samples(s.push(e)) == sum_of_samples(s) + e.1.cpu_centipercent,
{
    assert(s.push(e).drop_last() =~= s);
    assert(s.push(e).last() == e);
}

impl View for HostOccupation {
    type V = Map<Seq<u8>, OtherHostOccupation>;

    closed spec fn view(&self) -> Map<Seq<u8>, OtherHostOccupation> {
        self.map@
    }
}

impl HostOccupation {
    /// Distinct peer keys in the underlying store.
    pub closed spec fn wf(&self) -> bool {
        self.map.wf()
    }

    /// Total load of every cached sample, in hundredths of a percent.
    pub closed spec fn sample_sum(&self) -> int {
        sum_of_samples(self.map.entries@)
    }

    /// How many peer samples are cached.
    pub closed spec fn sample_len(&self) -> int {
        self.map.entries@.len() as int
    }

    /// An empty cache: no peer sample is known at startup.
    pub fn new() -> (r: Self)
        ensures
            r.wf(),
            r@ == Map::<Seq<u8>, OtherHostOccupation>::empty(),
    {
        HostOccupation { map: PeerMap::new() }
    }

    /// Processes one decoded occupation message. A sample is cached only for
    /// a sender the registry already knows: occupation claims are trusted
    /// transitively through prior host-info authentication, never on their
    /// own, whatever the order in which messages arrive. Anything else is
    /// discarded without effect.
    pub fn handle_incoming_topic_message(
        &mut self,
        data: ExtractedTopicMessage<HostOccupationMessage>,
        host_info: &HostInfo,
    )
        requires
            old(self).wf(),
        ensures
            final(self).wf(),
            host_info@.dom().contains(data.peer_id@) ==> final(self)@ == old(self)@.insert(
                data.peer_id@,
                (OtherHostOccupation { cpu_centipercent: data.message.cpu_centipercent }),
            ),
            !host_info@.dom().contains(data.peer_id@) ==> *final(self) == *old(self),
            !host_info@.dom().contains(data.peer_id@) && !old(self)@.dom().contains(data.peer_id@)
                ==> !final(self)@.dom().contains(data.peer_id@),
            host_info@.dom().contains(data.peer_id@) && old(self)@.dom().contains(data.peer_id@)
                ==> final(self).sample_sum() == old(self).sample_sum()
                - old(self)@[data.peer_id@].cpu_centipercent + data.message.cpu_centipercent
                && final(self).sample_len() == old(self).sample_len(),
            host_info@.dom().contains(data.peer_id@) && !old(self)@.dom().contains(data.peer_id@)
                ==> final(self).sample_sum() == old(self).sample_sum()
                + data.message.cpu_centipercent && final(self).sample_len() == old(
                self,
            ).sample_len() + 1,
    {
        if !host_info.peer_id_is_registered(&data.peer_id) {
            return ;
        }
        let ghost s0 = self.map.entries@;
        let ghost peer = data.peer_id@;
        let ghost kv = (
            data.peer_id,
            OtherHostOccupation { cpu_centipercent: data.message.cpu_centipercent },
        );
        self.map.insert(
            data.peer_id,
            OtherHostOccupation { cpu_centipercent: data.message.cpu_centipercent },
        );
        proof {
            if map_of(s0).dom().contains(peer) {
                let i = choose|i: int|
                    0 <= i < s0.len() && s0[i].0@ == peer && self.map.entries@ == s0.update(i, kv);
                lemma_map_of_index(s0);
                lemma_sum_of_samples_update(s0, i, kv);
            } else {
                lemma_sum_of_samples_push(s0, kv);
            }
        }
    }

    /// Read-only view of the sample store, for the decision loop. The store's
    /// entry list carries exactly the cached samples: summing it gives
    /// `sample_sum`, so callers can connect `calculate_total_occupation`'s
    /// result to the handler's contract.
    pub fn get_map(&self) -> (r: &PeerMap<OtherHostOccupation>)
        ensures
            r@ == self@,
            r.wf() == self.wf(),
            sum_of_samples(r.entries@) == self.sample_sum(),
            r.entries@.len() == self.sample_len(),
    {
        &self.map
    }

    /// The mean of the local sample and every cached peer sample, as an exact
    /// sum and count: `(local + Σ peer samples, 1 + peer count)`. With no
    /// peer samples this is the local sample over a count of one. Samples are
    /// used however old they are; there is no staleness weighting.
    #[verifier::loop_isolation(false)]
    pub fn calculate_total_occupation(
        map: &PeerMap<OtherHostOccupation>,
        local_cpu_centipercent: u32,
    ) -> (r: AggregateOccupation)
        ensures
            r.sum_centipercent == local_cpu_centipercent + sum_of_samples(map.entries@),
            r.sample_count == map.entries@.len() + 1,
            map.wf() ==> r.sample_count == map@.dom().len() + 1,
    {
        proof {
            if map.wf() {
                lemma_map_of_len(map.entries@);
            }
            lemma_sum_of_samples_bound(map.entries@);
        }
        let mut sum: u128 = local_cpu_centipercent as u128;
        let mut i: usize = 0;
        while i < map.entries.len()
            invariant
                i <= map.entries@.len(),
                sum == local_cpu_centipercent + sum_of_samples(map.entries@.subrange(0, i as int)),
            decreases map.entries@.len() - i,
        {
            proof {
                lemma_sum_of_samples_bound(map.entries@.subrange(0, i as int));
                assert(map.entries@.subrange(0, i as int + 1).drop_last() =~= map.entries@.subrange(
                    0,
                    i as int,
                ));
            }
            sum = sum + map.entries[i].1.cpu_centipercent as u128;
            i += 1;
        }
        proof {
            assert(map.entries@.subrange(0, map.entries@.len() as int) =~= map.entries@);
        }
        AggregateOccupation { sum_centipercent: sum, sample_count: (map.entries.len() as u128) + 1 }
    }
}

impl AggregateOccupation {
    /// Whether the mean load strictly exceeds a threshold given in whole
    /// percent: `sum / count > threshold` decided exactly by
    /// cross-multiplication, with no rounding. The count is bounded by how
    /// many samples a machine can hold, which keeps the product in range.
    pub fn exceeds_threshold(&self, threshold_percentage: u8) -> (r: bool)
        requires
            self.sample_count <= 0x1_0000_0000_0000_0000,
        ensures
            r == (self.sum_centipercent > threshold_percentage * 100 * self.sample_count),
    {
        let threshold_centi: u128 = (threshold_percentage as u128) * 100;
        proof {
            assert(threshold_centi * self.sample_count <= 25500 * 0x1_0000_0000_0000_0000)
                by (nonlinear_arith)
                requires
                    threshold_centi <= 25500,
                    0 <= self.sample_count <= 0x1_0000_0000_0000_0000,
            ;
        }
        self.sum_centipercent > threshold_centi * self.sample_count
    }
}

} // verus!
