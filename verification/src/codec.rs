//! Wire codec and topic dispatcher.
//!
//! Payloads are flexbuffer maps: field-tagged, self-describing binary.
//! Encoding is delegated to the flexbuffers builder; decoding is done here,
//! byte by byte with every address checked, so no inbound payload — however
//! malformed — can make this library panic. Dispatch is a tagged match over
//! the topic identifier: an event whose topic no handler claims, or whose
//! payload does not decode, is dropped.
//!
//! Layout read by the decoder (what the builder writes for a host-info map):
//! the buffer ends with a root offset, a packed root type byte and a root
//! width byte; the map data is, at descending addresses before the values,
//! an offset to its keys vector, the keys vector's width and the entry
//! count; keys are NUL-terminated strings reached through an offset vector;
//! each string or blob value is an offset to length-prefixed bytes. All
//! offsets point backwards and all lengths and offsets are little-endian
//! integers of one, two, four or eight bytes.

use vstd::prelude::*;

use vstd::utf8::decode_utf8;
use vstd::utf8::encode_utf8;
use vstd::utf8::valid_utf8;

use crate::config::MacAddress;
use crate::host_info::HostInfoMessage;

verus! {

/// A payload attributed to the peer that propagated it.
pub struct ExtractedTopicMessage<T> {
    pub peer_id: Vec<u8>,
    pub message: T,
}

/// An inbound event after dispatch: claimed by one of the two topic handlers,
/// or claimed by none.
pub enum TopicMessage {
    /// A host-info payload that decoded to its expected shape.
    HostInfo(ExtractedTopicMessage<HostInfoMessage>),
    /// A host-occupation payload, handed on undecoded: its one field is a
    /// 32-bit float on the wire, which this library does not read itself.
    HostOccupation(ExtractedTopicMessage<Vec<u8>>),
    /// Wrong topic or malformed payload; dropped without effect.
    Unclaimed,
}

/// Little-endian value of `w` bytes starting at `addr`.
pub open spec fn le_bytes(b: Seq<u8>, addr: int, w: int) -> int
    decreases w,
{
    if w <= 0 {
        0
    } else {
        b[addr] + 256 * le_bytes(b, addr + 1, w - 1)
    }
}

/// The same, refused when the bytes are not all inside the buffer.
pub open spec fn le_at(b: Seq<u8>, addr: int, w: int) -> Option<int> {
    if 0 <= addr && addr + w <= b.len() {
        Some(le_bytes(b, addr, w))
    } else {
        None
    }
}

/// A flexbuffer width: one, two, four or eight bytes; anything else refused.
pub open spec fn width_of(n: int) -> Option<int> {
    if n == 1 || n == 2 || n == 4 || n == 8 {
        Some(n)
    } else {
        None
    }
}

/// The width named by the low two bits of a packed type byte.
pub open spec fn width_of_exp(e: int) -> int {
    if e == 0 {
        1
    } else if e == 1 {
        2
    } else if e == 2 {
        4
    } else {
        8
    }
}

/// Follows an offset slot: the target sits `offset` bytes before the slot.
pub open spec fn deref_at(b: Seq<u8>, slot: int, w: int) -> Option<int> {
    match le_at(b, slot, w) {
        Some(off) => if off <= slot {
            Some(slot - off)
        } else {
            None
        },
        None => None,
    }
}

/// The NUL-terminated bytes at `addr`, to the buffer's end if no NUL comes.
pub open spec fn cstr_at(b: Seq<u8>, addr: int) -> Seq<u8>
    decreases b.len() - addr,
{
    if addr < 0 || addr >= b.len() || b[addr] == 0 {
        Seq::empty()
    } else {
        seq![b[addr]] + cstr_at(b, addr + 1)
    }
}

/// The `i`-th key of a keys vector: an offset slot leading to a
/// NUL-terminated string.
pub open spec fn key_at(b: Seq<u8>, keys_addr: int, kw: int, i: int) -> Option<Seq<u8>> {
    match deref_at(b, keys_addr + i * kw, kw) {
        Some(ka) => Some(cstr_at(b, ka)),
        None => None,
    }
}

/// Length-prefixed bytes of a string or blob whose data begins at `da`: the
/// length sits in the `vw` bytes just before the data.
pub open spec fn data_bytes_at(b: Seq<u8>, da: int, vw: int) -> Option<Seq<u8>> {
    match le_at(b, da - vw, vw) {
        Some(len) => if da + len <= b.len() {
            Some(b.subrange(da, da + len))
        } else {
            None
        },
        None => None,
    }
}

/// Type tag and payload bytes of the `i`-th value of a three-entry map whose
/// values start at `m` with slot width `w`.
pub open spec fn field_bytes_at(b: Seq<u8>, m: int, w: int, i: int) -> Option<(int, Seq<u8>)> {
    let type_addr = m + w * 3 + i;
    if 0 <= type_addr < b.len() {
        let packed = b[type_addr] as int;
        match deref_at(b, m + w * i, w) {
            Some(da) => match data_bytes_at(b, da, width_of_exp(packed % 4)) {
                Some(bytes) => Some((packed / 4, bytes)),
                None => None,
            },
            None => None,
        }
    } else {
        None
    }
}

/// The three host-info fields of a map at `m`, once the keys have matched:
/// a six-byte MAC blob and two UTF-8 strings, in key order.
pub open spec fn fields_decoding(b: Seq<u8>, m: int, w: int) -> Option<
    (Seq<char>, Seq<u8>, Seq<char>),
> {
    match (field_bytes_at(b, m, w, 0), field_bytes_at(b, m, w, 1), field_bytes_at(b, m, w, 2)) {
        (Some(mac_f), Some(name_f), Some(tok_f)) => {
            if mac_f.0 == 25 && name_f.0 == 5 && tok_f.0 == 5 && mac_f.1.len() == 6 && valid_utf8(
                name_f.1,
            ) && valid_utf8(tok_f.1) {
                Some((decode_utf8(tok_f.1), mac_f.1, decode_utf8(name_f.1)))
            } else {
                None
            }
        },
        _ => None,
    }
}

/// A host-info map at `m` with slot width `w`: exactly the three expected
/// keys in their sorted order, then the three fields.
pub open spec fn map_decoding(b: Seq<u8>, m: int, w: int) -> Option<
    (Seq<char>, Seq<u8>, Seq<char>),
> {
    if m < 3 * w + 1 {
        None
    } else {
        match (deref_at(b, m - 3 * w, w), le_at(b, m - 2 * w, w), le_at(b, m - w, w)) {
            (Some(keys_addr), Some(kw_raw), Some(n)) => match width_of(kw_raw) {
                Some(kw) => if n == 3 && key_at(b, keys_addr, kw, 0) == Some(
                    encode_utf8("mac_address"@),
                ) && key_at(b, keys_addr, kw, 1) == Some(encode_utf8("name"@)) && key_at(
                    b,
                    keys_addr,
                    kw,
                    2,
                ) == Some(encode_utf8("token_hash"@)) {
                    fields_decoding(b, m, w)
                } else {
                    None
                },
                None => None,
            },
            _ => None,
        }
    }
}

/// What a host-info payload decodes to, if anything: token hash, the six MAC
/// bytes, and the display name. The root must be a map; every address is
/// checked against the buffer.
pub open spec fn host_info_decoding(b: Seq<u8>) -> Option<(Seq<char>, Seq<u8>, Seq<char>)> {
    if b.len() < 3 {
        None
    } else {
        match width_of(b[b.len() - 1] as int) {
            Some(rw) => {
                let packed = b[b.len() - 2] as int;
                if packed / 4 == 9 {
                    match deref_at(b, b.len() - 2 - rw, rw) {
                        Some(m) => map_decoding(b, m, width_of_exp(packed % 4)),
                        None => None,
                    }
                } else {
                    None
                }
            },
            None => None,
        }
    }
}

/// Powers of 256, for bounding little-endian reads.
spec fn pow256(k: int) -> int
    decreases k,
{
    if k <= 0 {
        1
    } else {
        256 * pow256(k - 1)
    }
}

proof fn lemma_pow256_pos(k: int)
    ensures
        pow256(k) >= 1,
    decreases k,
{
    if k > 0 {
        lemma_pow256_pos(k - 1);
    }
}

proof fn lemma_pow256_mono(k1: int, k2: int)
    requires
        0 <= k1 <= k2,
    ensures
        pow256(k1) <= pow256(k2),
    decreases k2,
{
    if k1 < k2 {
        lemma_pow256_mono(k1, k2 - 1);
        lemma_pow256_pos(k2 - 1);
    }
}

proof fn lemma_pow256_8()
    ensures
        pow256(8) == 0x1_0000_0000_0000_0000,
{
    assert(pow256(0) == 1);
    assert(pow256(1) == 0x100);
    assert(pow256(2) == 0x1_0000);
    assert(pow256(3) == 0x100_0000);
    assert(pow256(4) == 0x1_0000_0000);
    assert(pow256(5) == 0x100_0000_0000);
    assert(pow256(6) == 0x1_0000_0000_0000);
    assert(pow256(7) == 0x100_0000_0000_0000);
    assert(pow256(8) == 0x1_0000_0000_0000_0000);
}

proof fn lemma_le_bytes_bound(b: Seq<u8>, addr: int, w: int)
    requires
        0 <= addr,
        addr + w <= b.len(),
    ensures
        0 <= le_bytes(b, addr, w) < pow256(w),
    decreases w,
{
    if w > 0 {
        lemma_le_bytes_bound(b, addr + 1, w - 1);
    }
}

/// Reads a `w`-byte little-endian value; nothing when it leaves the buffer.
#[verifier::loop_isolation(false)]
fn read_le(b: &Vec<u8>, addr: usize, w: usize) -> (r: Option<u64>)
    requires
        w == 1 || w == 2 || w == 4 || w == 8,
    ensures
        match r {
            Some(v) => le_at(b@, addr as int, w as int) == Some(v as int),
            None => le_at(b@, addr as int, w as int) is None,
        },
{
    if w > b.len() || addr > b.len() - w {
        return None;
    }
    proof {
        lemma_le_bytes_bound(b@, addr as int, w as int);
    }
    let mut v: u64 = 0;
    let mut j: usize = w;
    while j > 0
        invariant
            j <= w,
            v as int == le_bytes(b@, addr + j, w - j),
            0 <= (v as int) < pow256(w - j),
        decreases j,
    {
        j -= 1;
        proof {
            lemma_pow256_mono(w - j as int, 8);
            lemma_pow256_8();
            lemma_le_bytes_bound(b@, addr + j, w - j);
        }
        v = (b[addr + j] as u64) + 256 * v;
    }
    Some(v)
}

/// Follows an offset slot backwards; nothing on any out-of-range address.
fn deref(b: &Vec<u8>, slot: usize, w: usize) -> (r: Option<usize>)
    requires
        w == 1 || w == 2 || w == 4 || w == 8,
    ensures
        match r {
            Some(t) => deref_at(b@, slot as int, w as int) == Some(t as int) && t <= slot
                && slot < b@.len(),
            None => deref_at(b@, slot as int, w as int) is None,
        },
{
    match read_le(b, slot, w) {
        Some(off) => {
            if off <= slot as u64 {
                proof {
                    assert(off as usize as int == off as int);
                }
                Some(slot - (off as usize))
            } else {
                None
            }
        },
        None => None,
    }
}

/// Copies the NUL-terminated bytes at `addr`.
#[verifier::loop_isolation(false)]
fn cstr_read(b: &Vec<u8>, addr: usize) -> (r: Vec<u8>)
    requires
        addr <= b@.len(),
    ensures
        r@ == cstr_at(b@, addr as int),
{
    let mut out: Vec<u8> = Vec::new();
    let mut i: usize = addr;
    while i < b.len() && b[i] != 0
        invariant
            addr <= i <= b@.len(),
            cstr_at(b@, addr as int) == out@ + cstr_at(b@, i as int),
        decreases b@.len() - i,
    {
        proof {
            assert(cstr_at(b@, i as int) == seq![b@[i as int]] + cstr_at(b@, i as int + 1));
        }
        out.push(b[i]);
        proof {
            assert(out@ + cstr_at(b@, i as int + 1) =~= cstr_at(b@, addr as int));
        }
        i += 1;
    }
    proof {
        assert(cstr_at(b@, i as int) =~= Seq::<u8>::empty());
        assert(out@ =~= cstr_at(b@, addr as int));
    }
    out
}

/// Byte-wise equality of a vector and a slice.
#[verifier::loop_isolation(false)]
fn bytes_eq_slice(a: &Vec<u8>, b: &[u8]) -> (r: bool)
    ensures
        r == (a@ == b@),
{
    if a.len() != b.len() {
        return false;
    }
    let mut i: usize = 0;
    while i < a.len()
        invariant
            i <= a@.len(),
            a@.len() == b@.len(),
            forall|j: int| 0 <= j < i ==> a@[j] == b@[j],
        decreases a@.len() - i,
    {
        if a[i] != b[i] {
            return false;
        }
        i += 1;
    }
    proof {
        assert(a@ =~= b@);
    }
    true
}

/// Copies `len` bytes starting at `start`.
#[verifier::loop_isolation(false)]
fn copy_range(b: &Vec<u8>, start: usize, len: usize) -> (r: Vec<u8>)
    requires
        start + len <= b@.len(),
    ensures
        r@ == b@.subrange(start as int, start as int + len as int),
{
    let mut out: Vec<u8> = Vec::new();
    let mut t: usize = 0;
    while t < len
        invariant
            t <= len,
            out@ == b@.subrange(start as int, start as int + t as int),
        decreases len - t,
    {
        proof {
            assert(b@.len() == b.len());
        }
        out.push(b[start + t]);
        proof {
            assert(out@ =~= b@.subrange(start as int, start as int + t as int + 1));
        }
        t += 1;
    }
    out
}

/// Relies on std's `String::from_utf8`: it accepts exactly the valid UTF-8
/// byte strings, yields the characters they encode, and never panics.
#[verifier::external_body]
fn string_from_utf8(bytes: Vec<u8>) -> (r: Option<String>)
    ensures
        r matches Some(s) ==> valid_utf8(bytes@) && s@ == decode_utf8(bytes@),
        r is None ==> !valid_utf8(bytes@),
{
    String::from_utf8(bytes).ok()
}

/// Reads the `i`-th key of the keys vector.
fn read_key(payload: &Vec<u8>, keys_addr: usize, kw: usize, i: usize) -> (r: Option<Vec<u8>>)
    requires
        kw == 1 || kw == 2 || kw == 4 || kw == 8,
        i <= 2,
        keys_addr < payload@.len(),
    ensures
        match r {
            Some(k) => key_at(payload@, keys_addr as int, kw as int, i as int) == Some(k@),
            None => key_at(payload@, keys_addr as int, kw as int, i as int) is None,
        },
{
    if i * kw + kw > payload.len() - keys_addr {
        return None;
    }
    match deref(payload, keys_addr + i * kw, kw) {
        Some(ka) => Some(cstr_read(payload, ka)),
        None => None,
    }
}

/// Reads the type tag and payload bytes of the `i`-th map value.
fn read_field(payload: &Vec<u8>, m: usize, w: usize, i: usize) -> (r: Option<(u8, Vec<u8>)>)
    requires
        w == 1 || w == 2 || w == 4 || w == 8,
        i <= 2,
        m < payload@.len(),
    ensures
        match r {
            Some(f) => field_bytes_at(payload@, m as int, w as int, i as int) == Some(
                (f.0 as int, f.1@),
            ),
            None => field_bytes_at(payload@, m as int, w as int, i as int) is None,
        },
{
    if w * 3 + i >= payload.len() - m {
        return None;
    }
    let packed = payload[m + w * 3 + i];
    let vw: usize = if packed % 4 == 0 {
        1
    } else if packed % 4 == 1 {
        2
    } else if packed % 4 == 2 {
        4
    } else {
        8
    };
    let da = match deref(payload, m + w * i, w) {
        Some(v) => v,
        None => {
            return None;
        },
    };
    if vw > da {
        return None;
    }
    let dlen = match read_le(payload, da - vw, vw) {
        Some(v) => v,
        None => {
            return None;
        },
    };
    if dlen > (payload.len() - da) as u64 {
        return None;
    }
    proof {
        assert(dlen as usize as int == dlen as int);
    }
    let bytes = copy_range(payload, da, dlen as usize);
    Some((packed / 4, bytes))
}

/// Decodes the three fields of a host-info map whose keys have matched.
fn decode_fields(payload: &Vec<u8>, m: usize, w: usize) -> (r: Option<HostInfoMessage>)
    requires
        w == 1 || w == 2 || w == 4 || w == 8,
        m < payload@.len(),
    ensures
        match r {
            Some(msg) => fields_decoding(payload@, m as int, w as int) == Some(
                (msg.token_hash@, msg.mac_address.bytes@, msg.name@),
            ),
            None => fields_decoding(payload@, m as int, w as int) is None,
        },
{
    let mac_field = match read_field(payload, m, w, 0) {
        Some(v) => v,
        None => {
            return None;
        },
    };
    let name_field = match read_field(payload, m, w, 1) {
        Some(v) => v,
        None => {
            return None;
        },
    };
    let tok_field = match read_field(payload, m, w, 2) {
        Some(v) => v,
        None => {
            return None;
        },
    };
    if mac_field.0 != 25 || name_field.0 != 5 || tok_field.0 != 5 {
        return None;
    }
    let mac_bytes = mac_field.1;
    if mac_bytes.len() != 6 {
        return None;
    }
    let bytes6: [u8; 6] = [
        mac_bytes[0],
        mac_bytes[1],
        mac_bytes[2],
        mac_bytes[3],
        mac_bytes[4],
        mac_bytes[5],
    ];
    proof {
        assert(bytes6@ =~= mac_bytes@);
    }
    let name = match string_from_utf8(name_field.1) {
        Some(v) => v,
        None => {
            return None;
        },
    };
    let token_hash = match string_from_utf8(tok_field.1) {
        Some(v) => v,
        None => {
            return None;
        },
    };
    Some(HostInfoMessage { token_hash, mac_address: MacAddress { bytes: bytes6 }, name })
}

/// Decodes a host-info map: header, the three expected keys, then the fields.
fn decode_map(payload: &Vec<u8>, m: usize, w: usize) -> (r: Option<HostInfoMessage>)
    requires
        w == 1 || w == 2 || w == 4 || w == 8,
        m < payload@.len(),
    ensures
        match r {
            Some(msg) => map_decoding(payload@, m as int, w as int) == Some(
                (msg.token_hash@, msg.mac_address.bytes@, msg.name@),
            ),
            None => map_decoding(payload@, m as int, w as int) is None,
        },
{
    if m <= 3 * w {
        return None;
    }
    let keys_addr = match deref(payload, m - 3 * w, w) {
        Some(v) => v,
        None => {
            return None;
        },
    };
    let kw_raw = match read_le(payload, m - 2 * w, w) {
        Some(v) => v,
        None => {
            return None;
        },
    };
    let entries = match read_le(payload, m - w, w) {
        Some(v) => v,
        None => {
            return None;
        },
    };
    let kw: usize = if kw_raw == 1 {
        1
    } else if kw_raw == 2 {
        2
    } else if kw_raw == 4 {
        4
    } else if kw_raw == 8 {
        8
    } else {
        return None;
    };
    if entries != 3 {
        return None;
    }
    let key0 = match read_key(payload, keys_addr, kw, 0) {
        Some(v) => v,
        None => {
            return None;
        },
    };
    let key1 = match read_key(payload, keys_addr, kw, 1) {
        Some(v) => v,
        None => {
            return None;
        },
    };
    let key2 = match read_key(payload, keys_addr, kw, 2) {
        Some(v) => v,
        None => {
            return None;
        },
    };
    if !bytes_eq_slice(&key0, "mac_address".as_bytes()) {
        return None;
    }
    if !bytes_eq_slice(&key1, "name".as_bytes()) {
        return None;
    }
    if !bytes_eq_slice(&key2, "token_hash".as_bytes()) {
        return None;
    }
    decode_fields(payload, m, w)
}

/// Decodes a host-info payload. Total and panic-free: any payload that is
/// not a well-formed three-field host-info map, byte for byte, is refused.
pub fn decode_host_info(payload: &Vec<u8>) -> (r: Option<HostInfoMessage>)
    ensures
        match r {
            Some(msg) => host_info_decoding(payload@) == Some(
                (msg.token_hash@, msg.mac_address.bytes@, msg.name@),
            ),
            None => host_info_decoding(payload@) is None,
        },
{
    let n = payload.len();
    if n < 3 {
        return None;
    }
    let rw_byte = payload[n - 1];
    if !(rw_byte == 1 || rw_byte == 2 || rw_byte == 4 || rw_byte == 8) {
        return None;
    }
    let rw = rw_byte as usize;
    let packed_root = payload[n - 2];
    if packed_root / 4 != 9 {
        return None;
    }
    let w: usize = if packed_root % 4 == 0 {
        1
    } else if packed_root % 4 == 1 {
        2
    } else if packed_root % 4 == 2 {
        4
    } else {
        8
    };
    if rw > n - 2 {
        return None;
    }
    let m = match deref(payload, n - 2 - rw, rw) {
        Some(v) => v,
        None => {
            return None;
        },
    };
    decode_map(payload, m, w)
}

/// Relies on flexbuffers' `Builder` (flexbuffers 25.12): writes a map with
/// the three host-info fields in the layout this module's decoder reads —
/// sorted NUL-terminated keys behind an offset vector, the name and token
/// hash as length-prefixed strings, the MAC address as a six-byte blob —
/// so decoding the result yields exactly these fields.
#[verifier::external_body]
pub(crate) fn flex_encode_host_info(msg: &HostInfoMessage) -> (r: Vec<u8>)
    ensures
        host_info_decoding(r@) == Some((msg.token_hash@, msg.mac_address.bytes@, msg.name@)),
{
    let mut b = flexbuffers::Builder::default();
    let mut m = b.start_map();
    m.push("mac_address", flexbuffers::Blob(&msg.mac_address.bytes[..]));
    m.push("name", msg.name.as_str());
    m.push("token_hash", msg.token_hash.as_str());
    m.end_map();
    b.take_buffer()
}

/// Dispatches one inbound event by its topic: host-info payloads are decoded
/// here; host-occupation payloads are claimed and handed on whole; anything
/// else is left unclaimed. Decode failure counts as a non-match.
pub fn extract_topic_message(peer_id: Vec<u8>, topic: &String, payload: &Vec<u8>) -> (r:
    TopicMessage)
    ensures
        topic@ == "dyn-wol-host-info"@ ==> (match host_info_decoding(payload@) {
            Some(fields) => (r matches TopicMessage::HostInfo(em) && em.peer_id@ == peer_id@
                && em.message.token_hash@ == fields.0 && em.message.mac_address.bytes@ == fields.1
                && em.message.name@ == fields.2),
            None => r is Unclaimed,
        }),
        topic@ == "dyn-wol-host-occupation"@ ==> (r matches TopicMessage::HostOccupation(em)
            && em.peer_id@ == peer_id@ && em.message@ == payload@),
        topic@ != "dyn-wol-host-info"@ && topic@ != "dyn-wol-host-occupation"@ ==> r is Unclaimed,
{
    proof {
        reveal_strlit("dyn-wol-host-info");
        reveal_strlit("dyn-wol-host-occupation");
        assert("dyn-wol-host-info"@.len() != "dyn-wol-host-occupation"@.len());
    }
    let info_topic: String = "dyn-wol-host-info".to_owned();
    let occupation_topic: String = "dyn-wol-host-occupation".to_owned();
    if *topic == info_topic {
        match decode_host_info(payload) {
            Some(message) => TopicMessage::HostInfo(ExtractedTopicMessage { peer_id, message }),
            None => TopicMessage::Unclaimed,
        }
    } else if *topic == occupation_topic {
        let mut copy: Vec<u8> = Vec::new();
        let mut i: usize = 0;
        while i < payload.len()
            invariant
                i <= payload@.len(),
                copy@ == payload@.subrange(0, i as int),
            decreases payload@.len() - i,
        {
            copy.push(payload[i]);
            i += 1;
        }
        proof {
            assert(copy@ =~= payload@);
        }
        TopicMessage::HostOccupation(ExtractedTopicMessage { peer_id, message: copy })
    } else {
        TopicMessage::Unclaimed
    }
}

} // verus!
