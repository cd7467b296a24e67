//! The integrity tag of Retry packets.

use vstd::prelude::*;
use crate::packet_key;
use crate::wire;

verus! {

/// The key of the integrity tag, fixed for QUIC version 1.
pub const RETRY_INTEGRITY_KEY: [u8; 16] = [
    0xbe, 0x0c, 0x69, 0x0b, 0x9f, 0x66, 0x57, 0x5a, 0x1d, 0x76, 0x6b, 0x54, 0xe3, 0x68, 0xc8, 0x4e,
];

/// The nonce of the integrity tag, fixed for QUIC version 1.
pub const RETRY_INTEGRITY_NONCE: [u8; 12] = [
    0x46, 0x15, 0x99, 0xd3, 0x5d, 0x63, 0x2b, 0xf2, 0x23, 0x98, 0x25, 0xbb,
];

/// What the tag authenticates: the connection ID that the client chose, behind its length, and the
/// packet up to the tag.
pub open spec fn pseudo_packet(orig_dst_cid: Seq<u8>, packet: Seq<u8>) -> Seq<u8> {
    wire::be_bytes(orig_dst_cid.len(), 1) + orig_dst_cid + packet
}

/// Whether a tag is the one that AES-128-GCM gives for a pseudo-packet and no plaintext.
pub open spec fn is_retry_tag(orig_dst_cid: Seq<u8>, packet: Seq<u8>, tag: Seq<u8>) -> bool {
    packet_key::gcm_sealed(
        RETRY_INTEGRITY_KEY@,
        RETRY_INTEGRITY_NONCE@,
        pseudo_packet(orig_dst_cid, packet),
        Seq::empty(),
    ) == (Seq::<u8>::empty(), tag)
}

/// Whether a Retry packet carries the tag that its other bytes ask for. No packet does that is too
/// long for a tag.
pub open spec fn retry_valid(orig_dst_cid: Seq<u8>, header: Seq<u8>, payload: Seq<u8>) -> bool {
    let tag_start = payload.len() - packet_key::TAG_LEN;
    let packet = header + payload.take(tag_start);
    &&& payload.len() >= packet_key::TAG_LEN
    &&& 1 + orig_dst_cid.len() + packet.len() <= packet_key::GCM_AAD_MAX
    &&& is_retry_tag(orig_dst_cid, packet, payload.skip(tag_start))
}

/// The tag of a Retry packet.
pub fn compute_retry_tag(orig_dst_cid: &[u8], packet: &[u8]) -> (tag: [u8; 16])
    requires
        1 + orig_dst_cid@.len() + packet@.len() <= packet_key::GCM_AAD_MAX,
    ensures
        is_retry_tag(orig_dst_cid@, packet@, tag@),
{
    let mut pseudo: Vec<u8> = Vec::new();
    wire::put_be(&mut pseudo, orig_dst_cid.len() as u64, 1);
    pseudo.extend_from_slice(orig_dst_cid);
    pseudo.extend_from_slice(packet);
    let mut empty: Vec<u8> = Vec::new();
    proof {
        wire::lemma_be_bytes_len(orig_dst_cid@.len(), 1);
        assert(pseudo@ =~= pseudo_packet(orig_dst_cid@, packet@));
        assert(empty@ =~= Seq::empty());
    }
    let tag = packet_key::gcm_seal(
        &RETRY_INTEGRITY_KEY,
        &RETRY_INTEGRITY_NONCE,
        pseudo.as_slice(),
        &mut empty,
    );
    assert(empty@ =~= Seq::empty());
    tag
}

/// Whether the last sixteen bytes of a Retry packet are its tag.
pub fn verify_retry_tag(orig_dst_cid: &[u8], header: &[u8], payload: &[u8]) -> (valid: bool)
    ensures
        valid == retry_valid(orig_dst_cid@, header@, payload@),
{
    if payload.len() < packet_key::TAG_LEN {
        return false;
    }
    let start: usize = payload.len() - packet_key::TAG_LEN;
    let mut pseudo: Vec<u8> = Vec::new();
    wire::put_be(&mut pseudo, orig_dst_cid.len() as u64, 1);
    pseudo.extend_from_slice(orig_dst_cid);
    pseudo.extend_from_slice(header);
    pseudo.extend_from_slice(vstd::slice::slice_subrange(payload, 0, start));
    let tag: [u8; 16] = [
        payload[start],
        payload[start + 1],
        payload[start + 2],
        payload[start + 3],
        payload[start + 4],
        payload[start + 5],
        payload[start + 6],
        payload[start + 7],
        payload[start + 8],
        payload[start + 9],
        payload[start + 10],
        payload[start + 11],
        payload[start + 12],
        payload[start + 13],
        payload[start + 14],
        payload[start + 15],
    ];
    let mut empty: Vec<u8> = Vec::new();
    proof {
        wire::lemma_be_bytes_len(orig_dst_cid@.len(), 1);
        assert(pseudo@ =~= pseudo_packet(orig_dst_cid@, header@ + payload@.take(start as int)));
        assert(tag@ =~= payload@.skip(start as int));
        assert(empty@ =~= Seq::empty());
    }
    let valid = packet_key::gcm_open(
        &RETRY_INTEGRITY_KEY,
        &RETRY_INTEGRITY_NONCE,
        pseudo.as_slice(),
        &mut empty,
        &tag,
    );
    assert(empty@ =~= Seq::empty());
    valid
}

/// Law: of all packets with the same bytes before the tag, a client accepts the one with the tag
/// that the server computed, and no other.
pub proof fn only_the_computed_tag_is_valid(
    orig_dst_cid: Seq<u8>,
    header: Seq<u8>,
    body: Seq<u8>,
    computed: Seq<u8>,
    tag: Seq<u8>,
)
    requires
        tag.len() == packet_key::TAG_LEN,
        1 + orig_dst_cid.len() + header.len() + body.len() <= packet_key::GCM_AAD_MAX,
        is_retry_tag(orig_dst_cid, header + body, computed),
    ensures
        retry_valid(orig_dst_cid, header, body + tag) <==> tag == computed,
{
    let payload = body + tag;
    assert(payload.take(payload.len() - packet_key::TAG_LEN) =~= body);
    assert(payload.skip(payload.len() - packet_key::TAG_LEN) =~= tag);
}

/// Law: a Retry packet is valid if and only if its last sixteen bytes are the tag that AES-128-GCM,
/// with the key and the nonce of QUIC version 1, gives for the connection ID behind its length as
/// one byte, the header, and the payload before the tag.
pub proof fn retry_tag_covers_connection_id_and_packet(
    orig_dst_cid: Seq<u8>,
    header: Seq<u8>,
    body: Seq<u8>,
    tag: Seq<u8>,
)
    requires
        tag.len() == 16,
        1 + orig_dst_cid.len() + header.len() + body.len() <= 0x10_0000_0000,
    ensures
        retry_valid(orig_dst_cid, header, body + tag) <==> packet_key::gcm_sealed(
            seq![
                0xbeu8, 0x0c, 0x69, 0x0b, 0x9f, 0x66, 0x57, 0x5a, 0x1d, 0x76, 0x6b, 0x54, 0xe3,
                0x68, 0xc8, 0x4e,
            ],
            seq![0x46u8, 0x15, 0x99, 0xd3, 0x5d, 0x63, 0x2b, 0xf2, 0x23, 0x98, 0x25, 0xbb],
            seq![(orig_dst_cid.len() % 256) as u8] + orig_dst_cid + header + body,
            Seq::empty(),
        ) == (Seq::<u8>::empty(), tag),
        is_retry_tag(orig_dst_cid, header + body, tag) <==> retry_valid(
            orig_dst_cid,
            header,
            body + tag,
        ),
{
    let payload = body + tag;
    wire::lemma_short_integers(orig_dst_cid.len());
    assert(payload.take(payload.len() - packet_key::TAG_LEN) =~= body);
    assert(payload.skip(payload.len() - packet_key::TAG_LEN) =~= tag);
    assert(RETRY_INTEGRITY_KEY@ =~= seq![
        0xbeu8, 0x0c, 0x69, 0x0b, 0x9f, 0x66, 0x57, 0x5a, 0x1d, 0x76, 0x6b, 0x54, 0xe3, 0x68,
        0xc8, 0x4e,
    ]);
    assert(RETRY_INTEGRITY_NONCE@ =~= seq![
        0x46u8, 0x15, 0x99, 0xd3, 0x5d, 0x63, 0x2b, 0xf2, 0x23, 0x98, 0x25, 0xbb,
    ]);
    assert(pseudo_packet(orig_dst_cid, header + body) =~= seq![(orig_dst_cid.len() % 256) as u8]
        + orig_dst_cid + header + body);
}

/// Law: a Retry packet whose payload is shorter than a tag, or that is too long for one, is not
/// valid.
pub proof fn retry_needs_room_for_a_tag(orig_dst_cid: Seq<u8>, header: Seq<u8>, payload: Seq<u8>)
    requires
        payload.len() < 16 || 1 + orig_dst_cid.len() + header.len() + payload.len() - 16
            > 0x10_0000_0000,
    ensures
        !retry_valid(orig_dst_cid, header, payload),
{
}

} // verus!
