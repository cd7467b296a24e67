//! Header protection with AES-128.

use vstd::prelude::*;
use aes::cipher::{BlockEncrypt, KeyInit};

verus! {

/// The key of header protection in one direction.
#[derive(Debug, PartialEq)]
pub struct Aes128EcbHeaderKey {
    pub key: [u8; 16],
}

/// The block that AES-128 makes of a block.
pub uninterp spec fn aes128_block(key: Seq<u8>, block: Seq<u8>) -> Seq<u8>;

/// `Aes128::encrypt_block` of `aes`: a block, which depends on the key and the block alone.
#[verifier::external_body]
fn aes128_encrypt(key: &[u8; 16], block: &[u8; 16]) -> (out: [u8; 16])
    ensures
        out@ == aes128_block(key@, block@),
{
    let cipher = aes::Aes128::new_from_slice(key).expect("key is 16 bytes");
    let mut block = aes::Block::clone_from_slice(block);
    cipher.encrypt_block(&mut block);
    block.into()
}

/// How many bytes the packet number has, by the first byte of an unprotected packet.
pub open spec fn pn_len(first: u8) -> nat {
    ((first & 0x03) + 1) as nat
}

/// The first byte under a mask: the low four bits of a long header, the low five of a short one.
pub open spec fn first_masked(first: u8, mask: u8) -> u8 {
    if first & 0x80 != 0 {
        first ^ (mask & 0x0f)
    } else {
        first ^ (mask & 0x1f)
    }
}

/// A packet with its `len` packet number bytes under a mask.
pub open spec fn pn_masked(packet: Seq<u8>, pn_offset: int, len: nat, mask: Seq<u8>) -> Seq<u8> {
    Seq::new(
        packet.len(),
        |i: int|
            if pn_offset <= i < pn_offset + len {
                packet[i] ^ mask[1 + i - pn_offset]
            } else {
                packet[i]
            },
    )
}

/// The mask of a packet: the block that AES-128 makes of the sixteen bytes that start four bytes
/// behind the start of the packet number.
pub open spec fn packet_mask(key: Aes128EcbHeaderKey, pn_offset: int, packet: Seq<u8>) -> Seq<u8> {
    aes128_block(key.key@, packet.subrange(pn_offset + 4, pn_offset + 20))
}

/// A packet with its header protected. The length of the packet number is read before the first
/// byte is masked.
pub open spec fn header_protected(
    key: Aes128EcbHeaderKey,
    pn_offset: int,
    packet: Seq<u8>,
) -> Seq<u8> {
    let mask = packet_mask(key, pn_offset, packet);
    let masked = packet.update(0, first_masked(packet[0], mask[0]));
    pn_masked(masked, pn_offset, pn_len(packet[0]), mask)
}

/// A packet with the protection of its header removed. The length of the packet number is read
/// after the mask of the first byte is removed.
pub open spec fn header_unprotected(
    key: Aes128EcbHeaderKey,
    pn_offset: int,
    packet: Seq<u8>,
) -> Seq<u8> {
    let mask = packet_mask(key, pn_offset, packet);
    let masked = packet.update(0, first_masked(packet[0], mask[0]));
    pn_masked(masked, pn_offset, pn_len(masked[0]), mask)
}

/// A packet number has at most four bytes.
proof fn lemma_pn_len(first: u8)
    ensures
        1 <= pn_len(first) <= 4,
{
    assert(first & 0x03 <= 3) by (bit_vector);
}

/// Masking a first byte twice gives it back.
proof fn lemma_first_masked(first: u8, mask: u8)
    ensures
        first_masked(first_masked(first, mask), mask) == first,
{
    assert((first ^ (mask & 0x0f)) & 0x80 == first & 0x80) by (bit_vector);
    assert((first ^ (mask & 0x1f)) & 0x80 == first & 0x80) by (bit_vector);
    assert((first ^ (mask & 0x0f)) ^ (mask & 0x0f) == first) by (bit_vector);
    assert((first ^ (mask & 0x1f)) ^ (mask & 0x1f) == first) by (bit_vector);
}

/// Law: removing the protection of a header gives the packet back, and so does protecting a header
/// whose protection was removed; neither touches anything behind the packet number.
pub proof fn header_protection_round_trip(
    key: Aes128EcbHeaderKey,
    pn_offset: int,
    packet: Seq<u8>,
)
    requires
        1 <= pn_offset,
        pn_offset + 20 <= packet.len(),
    ensures
        header_unprotected(key, pn_offset, header_protected(key, pn_offset, packet)) == packet,
        header_protected(key, pn_offset, header_unprotected(key, pn_offset, packet)) == packet,
        header_protected(key, pn_offset, packet).skip(pn_offset + 4) == packet.skip(pn_offset + 4),
{
    let mask = packet_mask(key, pn_offset, packet);
    let hidden = header_protected(key, pn_offset, packet);
    let shown = header_unprotected(key, pn_offset, packet);
    let first = first_masked(packet[0], mask[0]);
    lemma_pn_len(packet[0]);
    lemma_pn_len(first);
    lemma_first_masked(packet[0], mask[0]);
    assert(hidden.subrange(pn_offset + 4, pn_offset + 20) =~= packet.subrange(
        pn_offset + 4,
        pn_offset + 20,
    ));
    assert(shown.subrange(pn_offset + 4, pn_offset + 20) =~= packet.subrange(
        pn_offset + 4,
        pn_offset + 20,
    ));
    assert forall|i: int| 0 <= i < packet.len() implies header_unprotected(
        key,
        pn_offset,
        hidden,
    )[i] == packet[i] && header_protected(key, pn_offset, shown)[i] == packet[i] by {
        let (b, m) = (packet[i], mask[1 + i - pn_offset]);
        assert((b ^ m) ^ m == b) by (bit_vector);
    }
    assert(header_unprotected(key, pn_offset, hidden) =~= packet);
    assert(header_protected(key, pn_offset, shown) =~= packet);
    assert(hidden.skip(pn_offset + 4) =~= packet.skip(pn_offset + 4));
}

/// Law: protecting a header masks each byte of the packet number, in packets of either header form:
/// with the mask that AES-128 makes of the sixteen bytes from the fourth behind the start of the
/// packet number, byte `i` of the packet number is masked with byte `1 + i`, and of the first byte
/// the low four bits of a long header or the low five of a short one are masked with byte zero.
/// The packet number has one byte more than the low two bits of the first byte say, which are read
/// before they are masked. No other byte changes.
pub proof fn protection_masks_the_packet_number(
    key: Aes128EcbHeaderKey,
    pn_offset: int,
    packet: Seq<u8>,
)
    requires
        0 <= pn_offset,
        pn_offset + 20 <= packet.len(),
    ensures
        ({
            let mask = aes128_block(key.key@, packet.subrange(pn_offset + 4, pn_offset + 20));
            let hidden = header_protected(key, pn_offset, packet);
            let first = if packet[0] & 0x80 != 0 {
                packet[0] ^ (mask[0] & 0x0f)
            } else {
                packet[0] ^ (mask[0] & 0x1f)
            };
            let pn_end = pn_offset + 1 + (packet[0] & 0x03) as int;
            &&& hidden.len() == packet.len()
            &&& pn_offset > 0 ==> hidden[0] == first
            &&& pn_offset == 0 ==> hidden[0] == first ^ mask[1]
            &&& forall|i: int|
                0 <= i < pn_end - pn_offset && pn_offset + i > 0 ==> hidden[pn_offset + i]
                    == #[trigger] packet[pn_offset + i] ^ mask[1 + i]
            &&& forall|i: int|
                1 <= i < packet.len() && !(pn_offset <= i < pn_end) ==> hidden[i]
                    == #[trigger] packet[i]
        }),
{
    let first = packet[0];
    assert(first & 0x03 <= 3) by (bit_vector);
}

/// Law: removing the protection of a header takes the same mask off again, and reads the length of
/// the packet number from the first byte once that is unmasked.
pub proof fn unprotection_unmasks_the_packet_number(
    key: Aes128EcbHeaderKey,
    pn_offset: int,
    packet: Seq<u8>,
)
    requires
        0 <= pn_offset,
        pn_offset + 20 <= packet.len(),
    ensures
        ({
            let mask = aes128_block(key.key@, packet.subrange(pn_offset + 4, pn_offset + 20));
            let shown = header_unprotected(key, pn_offset, packet);
            let first = if packet[0] & 0x80 != 0 {
                packet[0] ^ (mask[0] & 0x0f)
            } else {
                packet[0] ^ (mask[0] & 0x1f)
            };
            let pn_end = pn_offset + 1 + (first & 0x03) as int;
            &&& shown.len() == packet.len()
            &&& pn_offset > 0 ==> shown[0] == first
            &&& pn_offset == 0 ==> shown[0] == first ^ mask[1]
            &&& forall|i: int|
                0 <= i < pn_end - pn_offset && pn_offset + i > 0 ==> shown[pn_offset + i]
                    == #[trigger] packet[pn_offset + i] ^ mask[1 + i]
            &&& forall|i: int|
                1 <= i < packet.len() && !(pn_offset <= i < pn_end) ==> shown[i]
                    == #[trigger] packet[i]
        }),
{
    let mask = packet_mask(key, pn_offset, packet);
    let first = first_masked(packet[0], mask[0]);
    assert(first & 0x03 <= 3) by (bit_vector);
}

impl Aes128EcbHeaderKey {
    /// Masks the first byte of a packet.
    pub fn xor_first_byte(packet: &mut [u8], mask_byte: u8)
        requires
            old(packet)@.len() > 0,
        ensures
            final(packet)@ == old(packet)@.update(0, first_masked(old(packet)@[0], mask_byte)),
    {
        let first: u8 = packet[0];
        if first & 0x80 != 0 {
            packet[0] = first ^ (mask_byte & 0x0f);
        } else {
            packet[0] = first ^ (mask_byte & 0x1f);
        }
    }

    /// Masks the packet number bytes of a packet.
    pub fn xor_pn_bytes(packet: &mut [u8], pn_offset: usize, pn_len: usize, mask: &[u8; 16])
        requires
            pn_len <= 15,
            pn_offset + pn_len <= old(packet)@.len(),
        ensures
            final(packet)@ == pn_masked(old(packet)@, pn_offset as int, pn_len as nat, mask@),
    {
        let ghost before = packet@;
        let len: usize = packet.len();
        let mut i: usize = 0;
        while i < pn_len
            invariant
                i <= pn_len <= 15,
                pn_offset + pn_len <= len == packet@.len() == before.len(),
                packet@ =~= pn_masked(before, pn_offset as int, i as nat, mask@),
            decreases pn_len - i,
        {
            packet[pn_offset + i] = packet[pn_offset + i] ^ mask[1 + i];
            i = i + 1;
        }
    }

    /// The mask that protects a header: the block that AES-128 makes of the sample.
    pub fn compute_mask(&self, sample: &[u8]) -> (mask: [u8; 16])
        requires
            sample@.len() == 16,
        ensures
            mask@ == aes128_block(self.key@, sample@),
    {
        let block: [u8; 16] = [
            sample[0],
            sample[1],
            sample[2],
            sample[3],
            sample[4],
            sample[5],
            sample[6],
            sample[7],
            sample[8],
            sample[9],
            sample[10],
            sample[11],
            sample[12],
            sample[13],
            sample[14],
            sample[15],
        ];
        assert(block@ =~= sample@);
        aes128_encrypt(&self.key, &block)
    }

    /// Removes the protection of a header.
    pub fn decrypt(&self, pn_offset: usize, packet: &mut [u8])
        requires
            pn_offset + 20 <= old(packet)@.len(),
        ensures
            final(packet)@ == header_unprotected(*self, pn_offset as int, old(packet)@),
    {
        assert(pn_offset + 20 <= packet.len());
        let sample = vstd::slice::slice_subrange(packet, pn_offset + 4, pn_offset + 20);
        let mask = self.compute_mask(sample);
        Self::xor_first_byte(packet, mask[0]);
        proof {
            lemma_pn_len(packet@[0]);
        }
        let pn_len: usize = (packet[0] & 0x03) as usize + 1;
        Self::xor_pn_bytes(packet, pn_offset, pn_len, &mask);
    }

    /// Protects a header.
    pub fn encrypt(&self, pn_offset: usize, packet: &mut [u8])
        requires
            pn_offset + 20 <= old(packet)@.len(),
        ensures
            final(packet)@ == header_protected(*self, pn_offset as int, old(packet)@),
    {
        assert(pn_offset + 20 <= packet.len());
        let sample = vstd::slice::slice_subrange(packet, pn_offset + 4, pn_offset + 20);
        let mask = self.compute_mask(sample);
        proof {
            lemma_pn_len(packet@[0]);
        }
        let pn_len: usize = (packet[0] & 0x03) as usize + 1;
        Self::xor_first_byte(packet, mask[0]);
        Self::xor_pn_bytes(packet, pn_offset, pn_len, &mask);
    }

    /// How many bytes of a packet the mask is made of.
    pub fn sample_size(&self) -> (size: usize)
        ensures
            size == 16,
    {
        16
    }
}

} // verus!
