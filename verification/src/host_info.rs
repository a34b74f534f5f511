//! Authenticated peer registry.
//!
//! Peers broadcast `{token_hash, mac_address, name}`; a record is created or
//! overwritten only for messages whose token hash verifies against the local
//! pre-shared token, and records are never deleted.

use vstd::prelude::*;
use vstd::utf8::encode_utf8;

use crate::auth::{hash_token, token_matches, verify_token_hash};
use crate::codec::{flex_encode_host_info, host_info_decoding, ExtractedTopicMessage};
use crate::config::MacAddress;
use crate::peer_map::PeerMap;

verus! {

/// What the registry remembers of a peer: its display name and MAC address.
pub struct OtherHost {
    pub name: String,
    pub mac_address: MacAddress,
}

/// A host-info payload in decoded form.
pub struct HostInfoMessage {
    pub token_hash: String,
    pub mac_address: MacAddress,
    pub name: String,
}

/// The registry: peer identity bytes to the host record last accepted from
/// that peer, abstracted as a `Map<Seq<u8>, OtherHost>`.
pub struct HostInfo {
    map: PeerMap<OtherHost>,
}

impl View for HostInfo {
    type V = Map<Seq<u8>, OtherHost>;

    closed spec fn view(&self) -> Map<Seq<u8>, OtherHost> {
        self.map@
    }
}

impl HostInfo {
    /// Distinct peer keys in the underlying store.
    pub closed spec fn wf(&self) -> bool {
        self.map.wf()
    }

    /// An empty registry: no peer is known at startup.
    pub fn new() -> (r: Self)
        ensures
            r.wf(),
            r@ == Map::<Seq<u8>, OtherHost>::empty(),
    {
        HostInfo { map: PeerMap::new() }
    }

    /// Processes one decoded host-info message. The token hash is verified
    /// against the local token: on success the sender's record is created or
    /// overwritten; on failure the message is discarded without any effect,
    /// so a sender that never authenticated stays absent from the registry.
    pub fn handle_incoming_topic_message(
        &mut self,
        data: ExtractedTopicMessage<HostInfoMessage>,
        token: &str,
    )
        requires
            old(self).wf(),
        ensures
            final(self).wf(),
            token_matches(token@, data.message.token_hash@) ==> final(self)@ == old(self)@.insert(
                data.peer_id@,
                (OtherHost { name: data.message.name, mac_address: data.message.mac_address }),
            ),
            !token_matches(token@, data.message.token_hash@) ==> final(self)@ == old(self)@,
            !token_matches(token@, data.message.token_hash@) && !old(self)@.dom().contains(
                data.peer_id@,
            ) ==> !final(self)@.dom().contains(data.peer_id@),
    {
        if verify_token_hash(token, data.message.token_hash.as_str()) {
            self.map.insert(
                data.peer_id,
                OtherHost { name: data.message.name, mac_address: data.message.mac_address },
            );
        }
    }

    /// Membership check used to gate occupation telemetry: only peers with a
    /// previously accepted host-info message count as registered.
    pub fn peer_id_is_registered(&self, id: &Vec<u8>) -> (r: bool)
        ensures
            r == self@.dom().contains(id@),
    {
        self.map.contains_key(id)
    }

    /// Read-only view of the peer store, for the decision loop.
    pub fn get_map(&self) -> (r: &PeerMap<OtherHost>)
        ensures
            r@ == self@,
            r.wf() == self.wf(),
    {
        &self.map
    }
}

/// Builds the payload this node broadcasts about itself: a fresh salted hash
/// of the shared token together with the local MAC address and hostname,
/// encoded for the wire. Hashing succeeds for any token that fits argon2's
/// password bound, so a payload is always produced for real tokens; any
/// payload returned decodes back to these fields and its token hash verifies
/// against `token`.
pub fn broadcast_host_info(token: &str, mac_address: MacAddress, name: String) -> (r: Option<
    Vec<u8>,
>)
    ensures
        r matches Some(payload) ==> exists|h: Seq<char>|
            host_info_decoding(payload@) == Some((h, mac_address.bytes@, name@))
                && token_matches(token@, h),
        encode_utf8(token@).len() <= 0xffff_ffff ==> r is Some,
{
    let ghost name0 = name@;
    match hash_token(token) {
        Some(token_hash) => {
            let message = HostInfoMessage { token_hash, mac_address, name };
            let payload = flex_encode_host_info(&message);
            proof {
                assert(host_info_decoding(payload@) == Some(
                    (message.token_hash@, mac_address.bytes@, name0),
                ) && token_matches(token@, message.token_hash@));
            }
            Some(payload)
        },
        None => None,
    }
}

} // verus!
