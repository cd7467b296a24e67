//! Packet protection with AES-128-GCM.

use vstd::prelude::*;
use aes_gcm::aead::AeadInPlace;
use aes_gcm::{Aes128Gcm, Key, KeyInit, Nonce, Tag};
use crate::wire;

verus! {

/// The most bytes that AES-GCM can encrypt at once.
pub const GCM_PLAINTEXT_MAX: u64 = 0x10_0000_0000;

/// The most bytes of associated data that AES-GCM can authenticate at once.
pub const GCM_AAD_MAX: u64 = 0x10_0000_0000;

/// How many bytes the authentication tag has.
pub const TAG_LEN: usize = 16;

/// The payload of a packet is not authentic.
#[derive(Debug, Clone, Copy, PartialEq, Eq, Structural)]
pub struct CryptoError;

/// The key of packet protection in one direction.
#[derive(Debug, PartialEq)]
pub struct Aes128GcmPacketKey {
    pub key: [u8; 16],
    pub iv: [u8; 12],
}

/// The ciphertext and the tag that AES-128-GCM makes of a plaintext.
pub uninterp spec fn gcm_sealed(
    key: Seq<u8>,
    nonce: Seq<u8>,
    aad: Seq<u8>,
    plaintext: Seq<u8>,
) -> (Seq<u8>, Seq<u8>);

/// The plaintext that AES-128-GCM makes of a ciphertext, where the tag fits.
pub uninterp spec fn gcm_opened(
    key: Seq<u8>,
    nonce: Seq<u8>,
    aad: Seq<u8>,
    ciphertext: Seq<u8>,
    tag: Seq<u8>,
) -> Option<Seq<u8>>;

/// `Aes128Gcm::encrypt_in_place_detached` of `aes-gcm`: encrypts the buffer in place and returns
/// the tag. Both depend on the arguments alone, the length stays, and decrypting gives the
/// plaintext back.
#[verifier::external_body]
pub(crate) fn gcm_seal(key: &[u8; 16], nonce: &[u8; 12], aad: &[u8], buffer: &mut Vec<u8>) -> (tag:
    [u8; 16])
    requires
        old(buffer)@.len() <= GCM_PLAINTEXT_MAX,
        aad@.len() <= GCM_AAD_MAX,
    ensures
        (final(buffer)@, tag@) == gcm_sealed(key@, nonce@, aad@, old(buffer)@),
        final(buffer)@.len() == old(buffer)@.len(),
        gcm_opened(key@, nonce@, aad@, final(buffer)@, tag@) == Some(old(buffer)@),
{
    let cipher = Aes128Gcm::new(Key::<Aes128Gcm>::from_slice(key));
    cipher
        .encrypt_in_place_detached(Nonce::from_slice(nonce), aad, buffer)
        .expect("the lengths are within the limits of AES-GCM")
        .into()
}

/// `Aes128Gcm::decrypt_in_place_detached` of `aes-gcm`: decrypts the buffer in place where the tag
/// fits, and leaves it as it is where it does not. The outcome depends on the arguments alone, and
/// the length stays. Within the limits of encryption, exactly what encryption gives is accepted;
/// associated data beyond its limit is refused.
#[verifier::external_body]
pub(crate) fn gcm_open(
    key: &[u8; 16],
    nonce: &[u8; 12],
    aad: &[u8],
    buffer: &mut Vec<u8>,
    tag: &[u8; 16],
) -> (authentic: bool)
    ensures
        match gcm_opened(key@, nonce@, aad@, old(buffer)@, tag@) {
            Some(plaintext) => authentic && final(buffer)@ == plaintext,
            None => !authentic && final(buffer)@ == old(buffer)@,
        },
        final(buffer)@.len() == old(buffer)@.len(),
        old(buffer)@.len() <= GCM_PLAINTEXT_MAX && aad@.len() <= GCM_AAD_MAX && authentic
            ==> gcm_sealed(key@, nonce@, aad@, final(buffer)@) == (old(buffer)@, tag@),
        forall|plaintext: Seq<u8>|
            plaintext.len() == old(buffer)@.len() <= GCM_PLAINTEXT_MAX && aad@.len() <= GCM_AAD_MAX
                && #[trigger] gcm_sealed(key@, nonce@, aad@, plaintext) == (old(buffer)@, tag@)
                ==> authentic && final(buffer)@ == plaintext,
        aad@.len() > GCM_AAD_MAX ==> !authentic,
{
    let cipher = Aes128Gcm::new(Key::<Aes128Gcm>::from_slice(key));
    cipher
        .decrypt_in_place_detached(Nonce::from_slice(nonce), aad, buffer, Tag::from_slice(tag))
        .is_ok()
}

/// The nonce of a packet: the initialisation vector, with the packet number added without carry to
/// its last eight bytes.
pub open spec fn packet_nonce(iv: Seq<u8>, packet: u64) -> Seq<u8> {
    Seq::new(
        12,
        |i: int|
            if i < 4 {
                iv[i]
            } else {
                iv[i] ^ wire::be_bytes(packet as nat, 8)[i - 4]
            },
    )
}

/// The protected form of a payload: the ciphertext, then the tag.
pub open spec fn payload_sealed(
    key: Aes128GcmPacketKey,
    packet: u64,
    header: Seq<u8>,
    plaintext: Seq<u8>,
) -> Seq<u8> {
    let (ciphertext, tag) = gcm_sealed(
        key.key@,
        packet_nonce(key.iv@, packet),
        header,
        plaintext,
    );
    ciphertext + tag
}

/// The plaintext of a protected payload, where it is authentic.
pub open spec fn payload_opened(
    key: Aes128GcmPacketKey,
    packet: u64,
    header: Seq<u8>,
    payload: Seq<u8>,
) -> Option<Seq<u8>> {
    let tag_start = payload.len() - TAG_LEN;
    gcm_opened(
        key.key@,
        packet_nonce(key.iv@, packet),
        header,
        payload.take(tag_start),
        payload.skip(tag_start),
    )
}

/// Law: two packets protected with one initialisation vector never share a nonce.
pub proof fn nonces_are_distinct(iv: Seq<u8>, first: u64, second: u64)
    requires
        first != second,
    ensures
        packet_nonce(iv, first) != packet_nonce(iv, second),
{
    let a = wire::be_bytes(first as nat, 8);
    let b = wire::be_bytes(second as nat, 8);
    wire::lemma_be_bytes_len(first as nat, 8);
    wire::lemma_be_bytes_len(second as nat, 8);
    wire::lemma_byte_ranges();
    wire::lemma_be_nat_of_bytes(first as nat, 8);
    wire::lemma_be_nat_of_bytes(second as nat, 8);
    if packet_nonce(iv, first) == packet_nonce(iv, second) {
        assert forall|i: int| 0 <= i < 8 implies a[i] == b[i] by {
            assert(packet_nonce(iv, first)[i + 4] == iv[i + 4] ^ a[i]);
            assert(packet_nonce(iv, second)[i + 4] == iv[i + 4] ^ b[i]);
            let (v, x, y) = (iv[i + 4], a[i], b[i]);
            assert(v ^ x == v ^ y ==> x == y) by (bit_vector);
        }
        assert(a =~= b);
    }
}

/// Law: the first four bytes of a nonce are those of the initialisation vector, and the last eight
/// are its other bytes with those of the packet number, most significant first, added without
/// carry.
pub proof fn nonce_holds_the_packet_number(iv: Seq<u8>, packet: u64)
    requires
        iv.len() == 12,
    ensures
        packet_nonce(iv, packet) == seq![
            iv[0],
            iv[1],
            iv[2],
            iv[3],
            iv[4] ^ (packet / 0x100_0000_0000_0000 % 256) as u8,
            iv[5] ^ (packet / 0x1_0000_0000_0000 % 256) as u8,
            iv[6] ^ (packet / 0x100_0000_0000 % 256) as u8,
            iv[7] ^ (packet / 0x1_0000_0000 % 256) as u8,
            iv[8] ^ (packet / 0x100_0000 % 256) as u8,
            iv[9] ^ (packet / 0x1_0000 % 256) as u8,
            iv[10] ^ (packet / 0x100 % 256) as u8,
            iv[11] ^ (packet % 256) as u8,
        ],
{
    wire::integers_are_written_big_endian(packet as nat);
    assert(packet_nonce(iv, packet) =~= seq![
        iv[0],
        iv[1],
        iv[2],
        iv[3],
        iv[4] ^ (packet / 0x100_0000_0000_0000 % 256) as u8,
        iv[5] ^ (packet / 0x1_0000_0000_0000 % 256) as u8,
        iv[6] ^ (packet / 0x100_0000_0000 % 256) as u8,
        iv[7] ^ (packet / 0x1_0000_0000 % 256) as u8,
        iv[8] ^ (packet / 0x100_0000 % 256) as u8,
        iv[9] ^ (packet / 0x1_0000 % 256) as u8,
        iv[10] ^ (packet / 0x100 % 256) as u8,
        iv[11] ^ (packet % 256) as u8,
    ]);
}

/// Law: a protected payload is the ciphertext of the plaintext and then the tag, both made with the
/// nonce of the packet and the header as associated data; and the last sixteen bytes of a payload
/// are opened as the tag of those before them, with the same nonce and associated data.
pub proof fn protection_binds_header_and_number(
    key: Aes128GcmPacketKey,
    packet: u64,
    header: Seq<u8>,
    plaintext: Seq<u8>,
    ciphertext: Seq<u8>,
    tag: Seq<u8>,
)
    requires
        tag.len() == 16,
    ensures
        gcm_sealed(key.key@, packet_nonce(key.iv@, packet), header, plaintext) == (ciphertext, tag)
            ==> payload_sealed(key, packet, header, plaintext) == ciphertext + tag,
        payload_opened(key, packet, header, ciphertext + tag) == gcm_opened(
            key.key@,
            packet_nonce(key.iv@, packet),
            header,
            ciphertext,
            tag,
        ),
{
    let payload = ciphertext + tag;
    assert(payload.take(payload.len() - TAG_LEN) =~= ciphertext);
    assert(payload.skip(payload.len() - TAG_LEN) =~= tag);
}

/// The nonce of a packet.
pub fn nonce_for(iv: &[u8; 12], packet: u64) -> (nonce: [u8; 12])
    ensures
        nonce@ == packet_nonce(iv@, packet),
{
    let mut pn: Vec<u8> = Vec::new();
    wire::put_be(&mut pn, packet, 8);
    proof {
        wire::lemma_be_bytes_len(packet as nat, 8);
        assert(pn@ =~= wire::be_bytes(packet as nat, 8));
    }
    let nonce: [u8; 12] = [
        iv[0],
        iv[1],
        iv[2],
        iv[3],
        iv[4] ^ pn[0],
        iv[5] ^ pn[1],
        iv[6] ^ pn[2],
        iv[7] ^ pn[3],
        iv[8] ^ pn[4],
        iv[9] ^ pn[5],
        iv[10] ^ pn[6],
        iv[11] ^ pn[7],
    ];
    assert(nonce@ =~= packet_nonce(iv@, packet));
    nonce
}

impl Aes128GcmPacketKey {
    /// Protects a packet in place: encrypts what lies between the header and the last sixteen bytes
    /// of `buf`, and writes the tag into these.
    pub fn encrypt(&self, packet: u64, buf: &mut [u8], header_len: usize)
        requires
            header_len + TAG_LEN <= old(buf)@.len(),
            header_len <= GCM_AAD_MAX,
            old(buf)@.len() - header_len - TAG_LEN <= GCM_PLAINTEXT_MAX,
        ensures
            ({
                let header = old(buf)@.take(header_len as int);
                let plaintext = old(buf)@.subrange(
                    header_len as int,
                    old(buf)@.len() - TAG_LEN,
                );
                &&& final(buf)@ == header + payload_sealed(*self, packet, header, plaintext)
                &&& gcm_sealed(
                    self.key@,
                    packet_nonce(self.iv@, packet),
                    header,
                    plaintext,
                ).0.len() == plaintext.len()
                &&& final(buf)@.len() == old(buf)@.len()
                &&& payload_opened(
                    *self,
                    packet,
                    final(buf)@.take(header_len as int),
                    final(buf)@.skip(header_len as int),
                ) == Some(plaintext)
            }),
    {
        let ghost before = buf@;
        let nonce = nonce_for(&self.iv, packet);
        let len: usize = buf.len();
        let end: usize = len - TAG_LEN;
        let mut text = wire::copy_bytes(vstd::slice::slice_subrange(buf, header_len, end));
        let header = wire::copy_bytes(vstd::slice::slice_subrange(buf, 0, header_len));
        let tag = gcm_seal(&self.key, &nonce, header.as_slice(), &mut text);
        let mut i: usize = 0;
        while i < text.len()
            invariant
                i <= text@.len(),
                text@.len() == end - header_len,
                header_len <= end,
                end + TAG_LEN == len == buf@.len() == before.len(),
                forall|j: int| 0 <= j < header_len ==> buf@[j] == before[j],
                forall|j: int|
                    header_len <= j < header_len + i ==> buf@[j] == text@[j - header_len],
            decreases text@.len() - i,
        {
            buf[header_len + i] = text[i];
            i = i + 1;
        }
        let mut t: usize = 0;
        while t < TAG_LEN
            invariant
                t <= TAG_LEN,
                text@.len() == end - header_len,
                header_len <= end,
                end + TAG_LEN == len == buf@.len() == before.len(),
                forall|j: int| 0 <= j < header_len ==> buf@[j] == before[j],
                forall|j: int| header_len <= j < end ==> buf@[j] == text@[j - header_len],
                forall|j: int| end <= j < end + t ==> buf@[j] == tag@[j - end],
            decreases TAG_LEN - t,
        {
            buf[end + t] = tag[t];
            t = t + 1;
        }
        proof {
            let head = before.take(header_len as int);
            assert(header@ =~= head);
            assert(buf@ =~= head + (text@ + tag@));
            assert(buf@.take(header_len as int) =~= head);
            let payload = buf@.skip(header_len as int);
            assert(payload =~= text@ + tag@);
            assert(payload.take(payload.len() - TAG_LEN) =~= text@);
            assert(payload.skip(payload.len() - TAG_LEN) =~= tag@);
        }
    }

    /// Removes the protection of a payload in place, and cuts off the tag. Leaves a payload that is
    /// not authentic as it is. Within the limits of encryption, exactly what `encrypt` makes of a
    /// plaintext is authentic; behind a header beyond the limit nothing is.
    pub fn decrypt(&self, packet: u64, header: &[u8], payload: &mut Vec<u8>) -> (r: Result<
        (),
        CryptoError,
    >)
        requires
            old(payload)@.len() >= TAG_LEN,
        ensures
            match payload_opened(*self, packet, header@, old(payload)@) {
                Some(plaintext) => {
                    &&& r is Ok
                    &&& final(payload)@ == plaintext
                    &&& plaintext.len() == old(payload)@.len() - TAG_LEN
                },
                None => r is Err && final(payload)@ == old(payload)@,
            },
            r is Ok && old(payload)@.len() - TAG_LEN <= GCM_PLAINTEXT_MAX && header@.len()
                <= GCM_AAD_MAX ==> old(payload)@ == payload_sealed(
                *self,
                packet,
                header@,
                final(payload)@,
            ),
            forall|plaintext: Seq<u8>|
                plaintext.len() == old(payload)@.len() - TAG_LEN && plaintext.len()
                    <= GCM_PLAINTEXT_MAX && header@.len() <= GCM_AAD_MAX && #[trigger] gcm_sealed(
                    self.key@,
                    packet_nonce(self.iv@, packet),
                    header@,
                    plaintext,
                ) == (
                    old(payload)@.take(old(payload)@.len() - TAG_LEN),
                    old(payload)@.skip(old(payload)@.len() - TAG_LEN),
                ) ==> r is Ok && final(payload)@ == plaintext,
            header@.len() > GCM_AAD_MAX ==> r is Err,
    {
        let ghost before = payload@;
        let nonce = nonce_for(&self.iv, packet);
        let start: usize = payload.len() - TAG_LEN;
        let tag: [u8; 16] = [
            payload[start],
            payload[start + 1],
            payload[start + 2],
            payload[start + 3],
            payload[start + 4],
            payload[start + 5],
            payload[start + 6],
            payload[start + 7],
            payload[start + 8],
            payload[start + 9],
            payload[start + 10],
            payload[start + 11],
            payload[start + 12],
            payload[start + 13],
            payload[start + 14],
            payload[start + 15],
        ];
        let mut text = wire::copy_bytes(vstd::slice::slice_subrange(payload.as_slice(), 0, start));
        proof {
            assert(tag@ =~= before.skip(start as int));
            assert(text@ =~= before.take(start as int));
        }
        if gcm_open(&self.key, &nonce, header, &mut text, &tag) {
            assert(before =~= before.take(start as int) + before.skip(start as int));
            *payload = text;
            Ok(())
        } else {
            Err(CryptoError)
        }
    }

    /// How many bytes the tag has.
    pub fn tag_len(&self) -> (len: usize)
        ensures
            len == TAG_LEN,
    {
        TAG_LEN
    }

    /// After how many packets the key must be changed: never on this account.
    pub fn confidentiality_limit(&self) -> (limit: u64)
        ensures
            limit == u64::MAX,
    {
        u64::MAX
    }

    /// After how many forged packets the connection must be closed: never on this account.
    pub fn integrity_limit(&self) -> (limit: u64)
        ensures
            limit == u64::MAX,
    {
        u64::MAX
    }
}

} // verus!
