use hkdf::Hkdf;
use quic_mls::header_key::Aes128EcbHeaderKey;
use quic_mls::hkdf::{hkdf_expand_label, hkdf_label_info, INITIAL_SALT};
use quic_mls::keys::{
    derive_directional_keys, derive_initial_keys, derive_initial_secrets, derive_keys_from_secret,
};
use quic_mls::packet_key::{nonce_for, Aes128GcmPacketKey, CryptoError};
use quic_mls::retry::{compute_retry_tag, verify_retry_tag};
use quic_mls::Side;
use sha2::Sha256;

fn unhex(text: &str) -> Vec<u8> {
    (0..text.len() / 2).map(|i| u8::from_str_radix(&text[2 * i..2 * i + 2], 16).unwrap()).collect()
}

#[test]
fn compute_mask_matches_known_vector() {
    let dst_cid = [0x06u8, 0xb8, 0x58, 0xec, 0x6f, 0x80, 0x45, 0x2b];
    let extracted = Hkdf::<Sha256>::new(Some(&INITIAL_SALT), &dst_cid);
    let mut client_secret = vec![0u8; 32];
    extracted.expand(&hkdf_label_info("client in", b"", 32), &mut client_secret).unwrap();
    let hp_key: [u8; 16] =
        hkdf_expand_label(&client_secret, "quic hp", b"", 16).try_into().unwrap();

    let header_key = Aes128EcbHeaderKey { key: hp_key };

    let sample: [u8; 16] = [
        0x07, 0xb8, 0x41, 0x91, 0xa1, 0x96, 0xf7, 0x60, 0xa6, 0xda, 0xd1, 0xe9, 0xd1, 0xc4, 0x30,
        0xc4,
    ];

    let mask = header_key.compute_mask(&sample);

    assert_eq!(mask[0] & 0x0f, 0x08, "mask[0] low nibble should be 0x08");
    assert_eq!(mask[1], 0xbe, "mask[1] should be 0xbe");
}

#[test]
fn apply_mask_matches_known_vector_full_packet() {
    let dst_cid = [0x06u8, 0xb8, 0x58, 0xec, 0x6f, 0x80, 0x45, 0x2b];
    let extracted = Hkdf::<Sha256>::new(Some(&INITIAL_SALT), &dst_cid);
    let mut client_secret = vec![0u8; 32];
    extracted.expand(&hkdf_label_info("client in", b"", 32), &mut client_secret).unwrap();
    let hp_key: [u8; 16] =
        hkdf_expand_label(&client_secret, "quic hp", b"", 16).try_into().unwrap();
    let header_key = Aes128EcbHeaderKey { key: hp_key };

    let mut packet: Vec<u8> = vec![
        0xc0, 0x00, 0x00, 0x00, 0x01, 0x08, 0x06, 0xb8, 0x58, 0xec, 0x6f, 0x80, 0x45, 0x2b, 0x00,
        0x00, 0x40, 0x21, 0x00, 0x3e, 0xf5, 0x08, 0x07, 0xb8, 0x41, 0x91, 0xa1, 0x96, 0xf7, 0x60,
        0xa6, 0xda, 0xd1, 0xe9, 0xd1, 0xc4, 0x30, 0xc4, 0x89, 0x52, 0xcb, 0xa0, 0x14, 0x82, 0x50,
        0xc2, 0x1c, 0x0a, 0x6a, 0x70, 0xe1,
    ];

    let expected: Vec<u8> = vec![
        0xc8, 0x00, 0x00, 0x00, 0x01, 0x08, 0x06, 0xb8, 0x58, 0xec, 0x6f, 0x80, 0x45, 0x2b, 0x00,
        0x00, 0x40, 0x21, 0xbe, 0x3e, 0xf5, 0x08, 0x07, 0xb8, 0x41, 0x91, 0xa1, 0x96, 0xf7, 0x60,
        0xa6, 0xda, 0xd1, 0xe9, 0xd1, 0xc4, 0x30, 0xc4, 0x89, 0x52, 0xcb, 0xa0, 0x14, 0x82, 0x50,
        0xc2, 0x1c, 0x0a, 0x6a, 0x70, 0xe1,
    ];

    header_key.encrypt(18, &mut packet);
    assert_eq!(packet, expected);
}

#[test]
fn output_length_matches_request() {
    let secret = [0x42u8; 32];
    assert_eq!(hkdf_expand_label(&secret, "quic key", b"", 16).len(), 16);
    assert_eq!(hkdf_expand_label(&secret, "quic iv", b"", 12).len(), 12);
}

#[test]
fn different_labels_give_different_output() {
    let secret = [0x42u8; 32];
    let key = hkdf_expand_label(&secret, "quic key", b"", 16);
    let hp = hkdf_expand_label(&secret, "quic hp", b"", 16);
    assert_ne!(key, hp, "different labels must not collide");
}

#[test]
fn same_input_is_deterministic() {
    let secret = [0x42u8; 32];
    let a = hkdf_expand_label(&secret, "quic hp", b"", 16);
    let b = hkdf_expand_label(&secret, "quic hp", b"", 16);
    assert_eq!(a, b, "both endpoints must derive identical keys from the same secret");
}

#[test]
fn different_secrets_give_different_output() {
    let a = hkdf_expand_label(&[0x42u8; 32], "quic key", b"", 16);
    let b = hkdf_expand_label(&[0x43u8; 32], "quic key", b"", 16);
    assert_ne!(a, b);
}

#[test]
fn label_info_has_the_layout_of_tls() {
    assert_eq!(
        hkdf_label_info("client in", b"", 32),
        unhex("00200f746c73313320636c69656e7420696e00")
    );
    assert_eq!(hkdf_label_info("x", &[1, 2], 65536 + 5), unhex("000507746c7331332078020102"));
    let long = vec![7u8; 259];
    let info = hkdf_label_info("", &long, 0);
    assert_eq!(&info[..10], &unhex("000006746c7331332003")[..]);
    assert_eq!(&info[10..], &long[..]);
}

#[test]
fn client_and_server_keys_are_independent_but_cross_compatible() {
    let client_secret = [0x11u8; 32];
    let server_secret = [0x22u8; 32];

    let client_keys = derive_directional_keys(&client_secret, &server_secret, Side::Client);
    let server_keys = derive_directional_keys(&client_secret, &server_secret, Side::Server);

    let header_len = 5;
    let plaintext = b"hello quic-mls";
    let mut buf = vec![0u8; header_len + plaintext.len() + 16];
    buf[..header_len].copy_from_slice(b"HDRXX");
    buf[header_len..header_len + plaintext.len()].copy_from_slice(plaintext);

    client_keys.packet.local.encrypt(0, &mut buf, header_len);

    let mut payload = buf[header_len..].to_vec();
    server_keys.packet.remote.decrypt(0, &buf[..header_len], &mut payload).unwrap();
    assert_eq!(&payload[..], plaintext);
}

#[test]
fn same_secret_reproduces_identical_key_different_secret_does_not() {
    let client_secret = [0x11u8; 32];
    let server_secret = [0x22u8; 32];

    let (client_packet, _) = derive_keys_from_secret(&client_secret);
    let (server_packet, _) = derive_keys_from_secret(&server_secret);

    assert_ne!(client_packet, server_packet);

    let (client_packet_again, _) = derive_keys_from_secret(&client_secret);
    assert_eq!(client_packet, client_packet_again);
}

#[test]
fn derive_initial_keys_server_remote_decrypts_known_client_packet() {
    let dst_cid = [0x06u8, 0xb8, 0x58, 0xec, 0x6f, 0x80, 0x45, 0x2b];
    let server_keys = derive_initial_keys(&dst_cid, Side::Server);

    let header: [u8; 19] = [
        0xc0, 0x00, 0x00, 0x00, 0x01, 0x08, 0x06, 0xb8, 0x58, 0xec, 0x6f, 0x80, 0x45, 0x2b, 0x00,
        0x00, 0x40, 0x21, 0x00,
    ];
    let ciphertext_and_tag: [u8; 32] = [
        0x3e, 0xf5, 0x08, 0x07, 0xb8, 0x41, 0x91, 0xa1, 0x96, 0xf7, 0x60, 0xa6, 0xda, 0xd1, 0xe9,
        0xd1, 0xc4, 0x30, 0xc4, 0x89, 0x52, 0xcb, 0xa0, 0x14, 0x82, 0x50, 0xc2, 0x1c, 0x0a, 0x6a,
        0x70, 0xe1,
    ];

    let mut payload = ciphertext_and_tag.to_vec();
    server_keys.packet.remote.decrypt(0, &header, &mut payload).unwrap();
    assert_eq!(&payload[..], &[0u8; 16][..]);
}

#[test]
fn full_initial_packet_round_trip_with_20_byte_cid() {
    let dst_cid: [u8; 20] = [
        0x4d, 0xd1, 0x0b, 0x5d, 0x5c, 0x3b, 0x99, 0x7f, 0x91, 0xd5, 0x69, 0x9d, 0xb2, 0x68, 0x92,
        0x0e, 0xd9, 0xa4, 0x7c, 0x72,
    ];
    let client_keys = derive_initial_keys(&dst_cid, Side::Client);
    let server_keys = derive_initial_keys(&dst_cid, Side::Server);

    let mut header = vec![0xc0u8, 0x00, 0x00, 0x00, 0x01, 20];
    header.extend_from_slice(&dst_cid);
    header.extend_from_slice(&[0x00, 0x00, 0x40, 0x21]);
    let pn_offset = header.len();
    header.push(0x00);
    let header_len = header.len();

    let plaintext = [0u8; 16];
    let mut buf = header.clone();
    buf.extend_from_slice(&plaintext);
    buf.extend_from_slice(&[0u8; 16]);

    client_keys.packet.local.encrypt(0, &mut buf, header_len);
    client_keys.header.local.encrypt(pn_offset, &mut buf);

    server_keys.header.remote.decrypt(pn_offset, &mut buf);
    assert_eq!(&buf[..header_len], &header[..], "header must round-trip unchanged");

    let mut payload = buf[header_len..].to_vec();
    server_keys.packet.remote.decrypt(0, &buf[..header_len], &mut payload).unwrap();
    assert_eq!(&payload[..], &plaintext[..]);
}

#[test]
fn initial_secrets_are_deterministic_and_cid_sensitive() {
    let cid_a = [0x83, 0x94, 0xc8, 0xf0, 0x3e, 0x51, 0x57, 0x08];
    let cid_b = [0x00; 8];

    let (client_a, server_a) = derive_initial_secrets(&cid_a);
    let (client_a_again, _) = derive_initial_secrets(&cid_a);
    assert_eq!(client_a, client_a_again, "same CID must give same secret");
    assert_ne!(client_a, server_a, "client and server secrets must differ");

    let (client_b, _) = derive_initial_secrets(&cid_b);
    assert_ne!(client_a, client_b, "different CIDs must give different secrets");
}

#[test]
fn initial_secrets_and_keys_match_the_published_vectors() {
    let (client, server) = derive_initial_secrets(&unhex("8394c8f03e515708"));
    assert_eq!(client, unhex("c00cf151ca5be075ed0ebfb5c80323c42d6b7db67881289af4008f1f6c357aea"));
    assert_eq!(server, unhex("3c199828fd139efd216c155ad844cc81fb82fa8d7446fa7d78be803acdda951b"));
    let (packet, header) = derive_keys_from_secret(&client);
    assert_eq!(packet.key.to_vec(), unhex("1f369613dd76d5467730efcbe3b1a22d"));
    assert_eq!(packet.iv.to_vec(), unhex("fa044b2f42a3fd3b46fb255c"));
    assert_eq!(header.key.to_vec(), unhex("9f50449e04a0e810283a1e9933adedd2"));
}

#[test]
fn nonce_adds_the_packet_number_to_the_last_bytes() {
    let iv: [u8; 12] = unhex("e0459b3474bdd0e44a41c144").try_into().unwrap();
    assert_eq!(nonce_for(&iv, 654360564).to_vec(), unhex("e0459b3474bdd0e46d417eb0"));
    assert_eq!(nonce_for(&iv, 0), iv);
    assert_eq!(nonce_for(&[0u8; 12], u64::MAX), [0, 0, 0, 0, 255, 255, 255, 255, 255, 255, 255, 255]);
    assert_ne!(nonce_for(&iv, 1), nonce_for(&iv, 256));
}

#[test]
fn tampered_payload_is_refused_and_left_alone() {
    let key = Aes128GcmPacketKey { key: [1; 16], iv: [2; 12] };
    let mut buf = b"HDRdata".to_vec();
    buf.extend_from_slice(&[0u8; 16]);
    key.encrypt(7, &mut buf, 3);
    assert_eq!(&buf[..3], b"HDR");
    assert_ne!(&buf[3..7], b"data");

    let sealed = buf[3..].to_vec();
    let mut payload = sealed.clone();
    payload[0] ^= 1;
    let damaged = payload.clone();
    assert_eq!(key.decrypt(7, b"HDR", &mut payload), Err(CryptoError));
    assert_eq!(payload, damaged);
    assert_eq!(key.decrypt(8, b"HDR", &mut sealed.clone()), Err(CryptoError));
    assert_eq!(key.decrypt(7, b"HDS", &mut sealed.clone()), Err(CryptoError));

    let mut payload = sealed;
    assert_eq!(key.decrypt(7, b"HDR", &mut payload), Ok(()));
    assert_eq!(payload, b"data");
}

#[test]
fn empty_payload_round_trips() {
    let key = Aes128GcmPacketKey { key: [3; 16], iv: [4; 12] };
    let mut buf = vec![0u8; 16];
    key.encrypt(0, &mut buf, 0);
    let mut payload = buf.clone();
    assert_eq!(key.decrypt(0, b"", &mut payload), Ok(()));
    assert!(payload.is_empty());
    assert_eq!(key.tag_len(), 16);
    assert_eq!(key.confidentiality_limit(), u64::MAX);
    assert_eq!(key.integrity_limit(), u64::MAX);
}

#[test]
fn header_protection_is_removed_for_every_header_form() {
    let key = Aes128EcbHeaderKey { key: [9; 16] };
    assert_eq!(key.sample_size(), 16);
    for first in 0..=255u8 {
        let packet: Vec<u8> = (0..40u8).map(|i| if i == 0 { first } else { i.wrapping_mul(37) }).collect();
        let mut buf = packet.clone();
        key.encrypt(7, &mut buf);
        assert_eq!(buf[0] & 0xe0, first & 0xe0);
        if first & 0x80 != 0 {
            assert_eq!(buf[0] & 0xf0, first & 0xf0);
        }
        let pn_len = (first & 3) as usize + 1;
        assert_eq!(&buf[1..7], &packet[1..7]);
        assert_eq!(&buf[7 + pn_len..], &packet[7 + pn_len..]);
        key.decrypt(7, &mut buf);
        assert_eq!(buf, packet);
    }
}

#[test]
fn masking_touches_only_its_bits() {
    let mut long = [0xc3u8, 5];
    Aes128EcbHeaderKey::xor_first_byte(&mut long, 0xff);
    assert_eq!(long, [0xcc, 5]);
    let mut short = [0x43u8];
    Aes128EcbHeaderKey::xor_first_byte(&mut short, 0xff);
    assert_eq!(short, [0x5c]);
    let mut packet = [1u8, 2, 3, 4];
    let mut mask = [0u8; 16];
    mask[1] = 0x10;
    mask[2] = 0x20;
    Aes128EcbHeaderKey::xor_pn_bytes(&mut packet, 1, 2, &mask);
    assert_eq!(packet, [1, 0x12, 0x23, 4]);
}

#[test]
fn retry_tag_matches_the_published_vector() {
    let cid = unhex("8394c8f03e515708");
    let packet = unhex("ff000000010008f067a5502a4262b5746f6b656e");
    let tag = compute_retry_tag(&cid, &packet);
    assert_eq!(tag.to_vec(), unhex("04a265ba2eff4d829058fb3f0f2496ba"));

    let header = &packet[..15];
    let mut payload = packet[15..].to_vec();
    payload.extend_from_slice(&tag);
    assert!(verify_retry_tag(&cid, header, &payload));
    assert!(!verify_retry_tag(&cid[1..], header, &payload));
    assert!(!verify_retry_tag(&cid, &packet[..14], &payload));
    let mut damaged = payload.clone();
    damaged[0] ^= 0x80;
    assert!(!verify_retry_tag(&cid, header, &damaged));
    assert!(!verify_retry_tag(&cid, header, &payload[..15]));
    assert!(!verify_retry_tag(&cid, header, &[]));
}

#[test]
fn only_the_computed_retry_tag_is_accepted() {
    let cid = [9u8; 20];
    let packet = b"\xf0\x00\x00\x00\x01header and token";
    let tag = compute_retry_tag(&cid, packet);
    let (header, body) = packet.split_at(5);
    let with = |tag: &[u8]| [body, tag].concat();
    assert!(verify_retry_tag(&cid, header, &with(&tag)));
    for i in 0..tag.len() {
        for bit in 0..8 {
            let mut other = tag;
            other[i] ^= 1 << bit;
            assert!(!verify_retry_tag(&cid, header, &with(&other)));
        }
    }
}

#[test]
fn exactly_what_was_encrypted_is_decrypted() {
    let key = Aes128GcmPacketKey { key: [3; 16], iv: [5; 12] };
    for len in [0usize, 1, 40] {
        let mut packet = vec![0x41u8; 7 + len + 16];
        key.encrypt(11, &mut packet, 7);
        let (header, payload) = packet.split_at(7);
        let mut opened = payload.to_vec();
        assert_eq!(key.decrypt(11, header, &mut opened), Ok(()));
        assert_eq!(opened, vec![0x41u8; len]);
        for i in 0..payload.len() {
            let mut other = payload.to_vec();
            other[i] ^= 1;
            let kept = other.clone();
            assert!(key.decrypt(11, header, &mut other).is_err());
            assert_eq!(other, kept);
        }
    }
}
