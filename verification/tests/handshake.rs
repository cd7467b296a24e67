use mls_rs::identity::basic::{BasicCredential, BasicIdentityProvider};
use mls_rs::identity::SigningIdentity;
use mls_rs::{CipherSuite, CipherSuiteProvider, Client, CryptoProvider};
use mls_rs_crypto_rustcrypto::RustCryptoProvider;
use quic_mls::control::{
    decode, encode, message_body_len, receive_report, report_step, InvalidMessageType, ReportAction,
    ReportEvent,
};
use quic_mls::keys::{derive_initial_keys, derive_mls_keys, KeyPair};
use quic_mls::packet_key::Aes128GcmPacketKey;
use quic_mls::params::{find_param, ParamsError};
use quic_mls::preamble::{parse_preamble, preamble_datagrams};
use quic_mls::replay::{window_step, WindowStep};
use quic_mls::runner::deliver_window;
use quic_mls::session::{ExportKeyingMaterialError, HsState};
use quic_mls::transcript::read_transcript_param;
use quic_mls::{
    apply_commit_window, CommitLog, CommitWindowError, ControlMessage, ExportSecret, Handshake,
    MlsClientConfig, MlsGroup, MlsMember, MlsServerConfig, MlsSession, ResyncNeeded, Side,
};
use quinn_proto::transport_parameters::TransportParameters;

const CS: CipherSuite = CipherSuite::CURVE25519_AES128;

fn make_client(name: &str) -> MlsMember {
    let crypto = RustCryptoProvider::new();
    let cs_provider = crypto.cipher_suite_provider(CS).unwrap();
    let (secret_key, public_key) = cs_provider.signature_key_generate().unwrap();
    let credential = BasicCredential::new(name.as_bytes().to_vec()).into_credential();
    let signing_identity = SigningIdentity::new(credential, public_key);
    let inner = Client::builder()
        .crypto_provider(RustCryptoProvider::new())
        .identity_provider(BasicIdentityProvider::new())
        .signing_identity(signing_identity, secret_key, CS)
        .build();
    MlsMember { inner }
}

fn make_mls_groups() -> (MlsGroup, MlsGroup) {
    let alice = make_client("alice");
    let bob = make_client("bob");
    let mut alice_group = alice.create_group().unwrap();
    let bob_kp = bob.key_package().unwrap();
    let welcome = alice_group.add_member(&bob_kp).unwrap();
    let bob_group = bob.join(&welcome).unwrap();
    (alice_group, bob_group)
}

fn no_params(side: quinn_proto::Side) -> TransportParameters {
    TransportParameters::read(side, &mut &[][..]).unwrap()
}

fn new_session<G: ExportSecret>(group: G, side: Side, params: TransportParameters) -> MlsSession<G> {
    MlsSession::new(group, side, params, 0, usize::MAX)
}

fn seal(key: &Aes128GcmPacketKey, plaintext: &[u8]) -> Vec<u8> {
    let header_len = 5;
    let mut buf = vec![0u8; header_len + plaintext.len() + 16];
    buf[..header_len].copy_from_slice(b"HDRXX");
    buf[header_len..header_len + plaintext.len()].copy_from_slice(plaintext);
    key.encrypt(0, &mut buf, header_len);
    buf[header_len..].to_vec()
}

#[test]
fn handshake_keys_from_real_mls_group_round_trip() {
    let (alice_group, bob_group) = make_mls_groups();

    let alice_keys = derive_mls_keys(&alice_group, "0-rtt", Side::Client, b"").unwrap();
    let bob_keys = derive_mls_keys(&bob_group, "0-rtt", Side::Server, b"").unwrap();

    let header_len = 5;
    let plaintext = b"hello from alice";
    let mut buf = vec![0u8; header_len + plaintext.len() + 16];
    buf[..header_len].copy_from_slice(b"HDRXX");
    buf[header_len..header_len + plaintext.len()].copy_from_slice(plaintext);

    alice_keys.packet.local.encrypt(0, &mut buf, header_len);

    let mut payload = buf[header_len..].to_vec();
    bob_keys.packet.remote.decrypt(0, &buf[..header_len], &mut payload).unwrap();
    assert_eq!(&payload[..], plaintext);
}

#[test]
fn full_handshake_round_trip_between_two_sessions() {
    let (alice_group, bob_group) = make_mls_groups();

    let alice_params = no_params(quinn_proto::Side::Client);
    let bob_params = no_params(quinn_proto::Side::Server);

    let mut alice_session = new_session(alice_group, Side::Client, alice_params);
    let mut bob_session = new_session(bob_group, Side::Server, bob_params);

    let mut alice_buf = Vec::new();
    assert!(alice_session.write_handshake(&mut alice_buf).is_none());

    let mut bob_buf = Vec::new();
    assert!(bob_session.write_handshake(&mut bob_buf).is_none());

    alice_session.read_handshake(&bob_buf).unwrap();
    bob_session.read_handshake(&alice_buf).unwrap();

    assert!(alice_session.transport_parameters().unwrap().is_some());
    assert!(bob_session.transport_parameters().unwrap().is_some());
    assert!(alice_session.is_handshaking());
    assert!(bob_session.is_handshaking());
    assert!(alice_session.write_handshake(&mut Vec::new()).is_some());
    assert!(bob_session.write_handshake(&mut Vec::new()).is_some());
    assert!(alice_session.is_handshaking());
    assert!(bob_session.is_handshaking());

    let alice_0rtt_keys =
        alice_session.write_handshake(&mut Vec::new()).expect("0-RTT keys on call 3");
    let bob_0rtt_keys = bob_session.write_handshake(&mut Vec::new()).expect("0-RTT keys on call 3");

    assert!(!alice_session.is_handshaking());
    assert!(!bob_session.is_handshaking());

    let header_len = 5;
    let plaintext = b"zero rtt level data";
    let mut buf = vec![0u8; header_len + plaintext.len() + 16];
    buf[..header_len].copy_from_slice(b"HDRXX");
    buf[header_len..header_len + plaintext.len()].copy_from_slice(plaintext);
    alice_0rtt_keys.packet.local.encrypt(0, &mut buf, header_len);
    let mut payload = buf[header_len..].to_vec();
    bob_0rtt_keys.packet.remote.decrypt(0, &buf[..header_len], &mut payload).unwrap();
    assert_eq!(&payload[..], plaintext);

    assert!(alice_session.write_handshake(&mut Vec::new()).is_none());
}

#[test]
fn next_1rtt_keys_reflects_new_epoch_after_commit() {
    let (alice_group, bob_group) = make_mls_groups();

    let mut alice_session =
        new_session(alice_group, Side::Client, no_params(quinn_proto::Side::Client));
    let mut bob_session = new_session(bob_group, Side::Server, no_params(quinn_proto::Side::Server));

    let alice_epoch1 = alice_session.next_1rtt_keys().expect("epoch 1 keys");
    let bob_epoch1 = bob_session.next_1rtt_keys().expect("epoch 1 keys");

    let header_len = 5;
    let plaintext = b"epoch data";
    let mut buf1 = vec![0u8; header_len + plaintext.len() + 16];
    buf1[..header_len].copy_from_slice(b"HDRXX");
    buf1[header_len..header_len + plaintext.len()].copy_from_slice(plaintext);
    alice_epoch1.local.encrypt(0, &mut buf1, header_len);
    let epoch1_ciphertext = buf1[header_len..].to_vec();
    let mut payload1 = buf1[header_len..].to_vec();
    bob_epoch1.remote.decrypt(0, &buf1[..header_len], &mut payload1).unwrap();
    assert_eq!(&payload1[..], plaintext);

    let commit_bytes = alice_session.create_commit().unwrap();
    bob_session.apply_commit(&commit_bytes).unwrap();

    let alice_epoch2 = alice_session.next_1rtt_keys().expect("epoch 2 keys");
    let bob_epoch2 = bob_session.next_1rtt_keys().expect("epoch 2 keys");

    let mut buf2 = vec![0u8; header_len + plaintext.len() + 16];
    buf2[..header_len].copy_from_slice(b"HDRXX");
    buf2[header_len..header_len + plaintext.len()].copy_from_slice(plaintext);
    alice_epoch2.local.encrypt(0, &mut buf2, header_len);
    let mut payload2 = buf2[header_len..].to_vec();
    bob_epoch2.remote.decrypt(0, &buf2[..header_len], &mut payload2).unwrap();
    assert_eq!(&payload2[..], plaintext);

    assert_ne!(epoch1_ciphertext, buf2[header_len..]);
}

#[test]
fn quic_mls_distinct_keys_per_epoch() {
    let (alice_group, bob_group) = make_mls_groups();

    let mut alice_session =
        new_session(alice_group, Side::Client, no_params(quinn_proto::Side::Client));
    let mut bob_session = new_session(bob_group, Side::Server, no_params(quinn_proto::Side::Server));

    let header_len = 5;
    let plaintext = b"epoch data";

    let round_trip = |alice_keys: &KeyPair<Aes128GcmPacketKey>,
                      bob_keys: &KeyPair<Aes128GcmPacketKey>|
     -> Vec<u8> {
        let mut buf = vec![0u8; header_len + plaintext.len() + 16];
        buf[..header_len].copy_from_slice(b"HDRXX");
        buf[header_len..header_len + plaintext.len()].copy_from_slice(plaintext);
        alice_keys.local.encrypt(0, &mut buf, header_len);
        let ciphertext = buf[header_len..].to_vec();

        let mut payload = buf[header_len..].to_vec();
        bob_keys.remote.decrypt(0, &buf[..header_len], &mut payload).unwrap();
        assert_eq!(&payload[..], plaintext);

        ciphertext
    };

    let commit1 = alice_session.create_commit().unwrap();
    bob_session.apply_commit(&commit1).unwrap();
    let alice_epoch_a = alice_session.next_1rtt_keys().expect("keys after commit 1");
    let bob_epoch_a = bob_session.next_1rtt_keys().expect("keys after commit 1");
    let ciphertext_a = round_trip(&alice_epoch_a, &bob_epoch_a);

    let commit2 = alice_session.create_commit().unwrap();
    bob_session.apply_commit(&commit2).unwrap();
    let alice_epoch_b = alice_session.next_1rtt_keys().expect("keys after commit 2");
    let bob_epoch_b = bob_session.next_1rtt_keys().expect("keys after commit 2");
    let ciphertext_b = round_trip(&alice_epoch_b, &bob_epoch_b);

    assert_ne!(ciphertext_a, ciphertext_b);
}

#[test]
fn next_1rtt_keys_reflects_new_generation_within_same_epoch() {
    let (alice_group, bob_group) = make_mls_groups();

    let mut alice_session =
        new_session(alice_group, Side::Client, no_params(quinn_proto::Side::Client));
    let mut bob_session = new_session(bob_group, Side::Server, no_params(quinn_proto::Side::Server));

    let alice_gen1 = alice_session.next_1rtt_keys().expect("gen 1 keys");
    let bob_gen1 = bob_session.next_1rtt_keys().expect("gen 1 keys");
    let header_len = 5;
    let plaintext = b"epoch data";
    let mut buf1 = vec![0u8; header_len + plaintext.len() + 16];
    buf1[..header_len].copy_from_slice(b"HDRXX");
    buf1[header_len..header_len + plaintext.len()].copy_from_slice(plaintext);
    alice_gen1.local.encrypt(0, &mut buf1, header_len);
    let gen1_ciphertext = buf1[header_len..].to_vec();
    let mut payload1 = buf1[header_len..].to_vec();
    bob_gen1.remote.decrypt(0, &buf1[..header_len], &mut payload1).unwrap();
    assert_eq!(&payload1[..], plaintext);
    let alice_gen2 = alice_session.next_1rtt_keys().expect("gen 2 keys");
    let bob_gen2 = bob_session.next_1rtt_keys().expect("gen 2 keys");
    let mut buf2 = vec![0u8; header_len + plaintext.len() + 16];
    buf2[..header_len].copy_from_slice(b"HDRXX");
    buf2[header_len..header_len + plaintext.len()].copy_from_slice(plaintext);
    alice_gen2.local.encrypt(0, &mut buf2, header_len);
    let gen2_ciphertext = buf2[header_len..].to_vec();
    let mut payload2 = buf2[header_len..].to_vec();
    bob_gen2.remote.decrypt(0, &buf2[..header_len], &mut payload2).unwrap();
    assert_eq!(&payload2[..], plaintext);
    assert_ne!(gen1_ciphertext, gen2_ciphertext);
}

#[test]
fn epoch_mismatch_resolves_via_handshake_embedded_transcript() {
    let (alice_group, bob_group) = make_mls_groups();

    let mut alice_log = CommitLog::new(alice_group);

    const N: u64 = 3;
    for _ in 0..N {
        alice_log.create_commit().unwrap();
    }

    let mut alice_session = MlsSession::new(
        alice_log,
        Side::Client,
        no_params(quinn_proto::Side::Client),
        0,
        usize::MAX,
    );
    let mut bob_session = MlsSession::new(
        bob_group,
        Side::Server,
        no_params(quinn_proto::Side::Server),
        0,
        usize::MAX,
    );

    let mut alice_buf = Vec::new();
    assert!(alice_session.write_handshake(&mut alice_buf).is_none());

    bob_session.read_handshake(&alice_buf).unwrap();
    assert_eq!(bob_session.received_epoch, N, "Bob must have caught up to Alice's epoch");

    let mut bob_buf = Vec::new();
    assert!(bob_session.write_handshake(&mut bob_buf).is_none());
    alice_session.read_handshake(&bob_buf).unwrap();

    assert!(alice_session.write_handshake(&mut Vec::new()).is_some());
    assert!(bob_session.write_handshake(&mut Vec::new()).is_some());
    let alice_keys = alice_session.write_handshake(&mut Vec::new()).expect("alice keys");
    let bob_keys = bob_session.write_handshake(&mut Vec::new()).expect("bob keys");

    let header_len = 5;
    let plaintext = b"post-blackout data";
    let mut buf = vec![0u8; header_len + plaintext.len() + 16];
    buf[..header_len].copy_from_slice(b"HDRXX");
    buf[header_len..header_len + plaintext.len()].copy_from_slice(plaintext);
    alice_keys.packet.local.encrypt(0, &mut buf, header_len);
    let mut payload = buf[header_len..].to_vec();
    bob_keys
        .packet
        .remote
        .decrypt(0, &buf[..header_len], &mut payload)
        .expect("keys must match despite the pre-handshake epoch gap");
    assert_eq!(&payload[..], plaintext);
}

#[test]
fn quic_mls_stale_commit_rejection() {
    let (alice_raw, mut bob_raw) = make_mls_groups();
    let mut alice_group = CommitLog::new(alice_raw);
    alice_group.create_commit().unwrap();
    alice_group.create_commit().unwrap();
    let mut local_epoch = 0u64;
    let window_1_2 = alice_group.window_bytes();
    apply_commit_window(&mut bob_raw, &window_1_2, &mut local_epoch).unwrap();
    assert_eq!(local_epoch, 2);
    alice_group.create_commit().unwrap();
    let window_1_2_3 = alice_group.window_bytes();
    assert_eq!(window_1_2_3.len(), 3);
    let result = apply_commit_window(&mut bob_raw, &window_1_2_3, &mut local_epoch);
    assert!(result.is_ok());
    assert_eq!(local_epoch, 3);
}

#[test]
fn quic_mls_fell_off_back() {
    let (alice_raw, mut bob_raw) = make_mls_groups();
    let mut alice_group = CommitLog::new(alice_raw);

    for _ in 0..6 {
        alice_group.create_commit().unwrap();
    }

    alice_group.trim(5);
    assert_eq!(alice_group.checkpoint(), 5);
    let window = alice_group.window_bytes();
    assert_eq!(window, vec![window[0].clone()]);
    assert_eq!(window[0].0, 6);

    let mut local_epoch = 3u64;

    let result = apply_commit_window(&mut bob_raw, &window, &mut local_epoch);

    assert!(matches!(result, Err(CommitWindowError::ResyncNeeded)));
    assert_eq!(local_epoch, 3);
}

#[test]
fn refused_commit_stops_the_replay() {
    let (alice_raw, mut bob_raw) = make_mls_groups();
    let mut alice_group = CommitLog::new(alice_raw);
    alice_group.create_commit().unwrap();
    alice_group.create_commit().unwrap();
    let mut window = alice_group.window_bytes();
    window[1].1 = b"no commit at all".to_vec();
    let mut local_epoch = 0;
    let result = apply_commit_window(&mut bob_raw, &window, &mut local_epoch);
    assert!(matches!(result, Err(CommitWindowError::CommitRejected(_))));
    assert_eq!(local_epoch, 1);
    assert_eq!(result.unwrap_err().message(), "commit rejected by the group");
    let good = alice_group.window_bytes();
    apply_commit_window(&mut bob_raw, &good, &mut local_epoch).unwrap();
    assert_eq!(local_epoch, 2);
}

#[test]
fn window_steps_compare_epochs() {
    assert_eq!(window_step(3, 0), Ok(WindowStep::Skip));
    assert_eq!(window_step(3, 3), Ok(WindowStep::Skip));
    assert_eq!(window_step(3, 4), Ok(WindowStep::Apply));
    assert_eq!(window_step(3, 5), Err(ResyncNeeded));
    assert_eq!(window_step(u64::MAX, u64::MAX), Ok(WindowStep::Skip));
    assert_eq!(window_step(u64::MAX - 1, u64::MAX), Ok(WindowStep::Apply));
    let text = "fell off the back of the commit window: gap in received epochs";
    assert_eq!(ResyncNeeded.message(), text);
    assert_eq!(CommitWindowError::ResyncNeeded.message(), text);
}

#[test]
fn reports_trim_the_log() {
    let (alice_raw, mut bob_raw) = make_mls_groups();
    let mut log = CommitLog::new(alice_raw);
    assert!(log.window_bytes().is_empty());
    for _ in 0..3 {
        log.create_commit().unwrap();
    }
    let window = log.window_bytes();
    assert_eq!(window.iter().map(|e| e.0).collect::<Vec<_>>(), [1, 2, 3]);
    assert_eq!(log.pending_commit_window(), window);

    let mut epoch = 0;
    let mut datagrams = preamble_datagrams(&window, usize::MAX).into_iter();
    for d in datagrams.by_ref() {
        let piece = parse_preamble(&d).unwrap().unwrap();
        let delivery = deliver_window(&mut bob_raw, &piece, &mut epoch);
        assert!(delivery.outcome.is_ok());
        assert_eq!(delivery.published, Some(epoch));
    }
    assert_eq!(epoch, 3);
    let again = deliver_window(&mut bob_raw, &window, &mut epoch);
    assert!(again.outcome.is_ok());
    assert_eq!(again.published, None);

    assert!(receive_report(&mut log, Some(ControlMessage::Hello)));
    assert_eq!(log.checkpoint(), 0);
    assert!(receive_report(&mut log, Some(ControlMessage::Report(2))));
    assert_eq!(log.checkpoint(), 2);
    assert_eq!(log.window_bytes(), window[2..].to_vec());
    assert!(receive_report(&mut log, Some(ControlMessage::Report(1))));
    assert_eq!(log.checkpoint(), 2);
    assert!(receive_report(&mut log, Some(ControlMessage::Report(99))));
    assert_eq!(log.checkpoint(), 3);
    assert!(log.window_bytes().is_empty());
    assert!(!receive_report(&mut log, None));
    log.create_commit().unwrap();
    assert_eq!(log.window_bytes()[0].0, 4);
}

#[test]
fn silent_receiver_keeps_the_log() {
    let (alice_raw, mut bob_raw) = make_mls_groups();
    let mut log = CommitLog::new(alice_raw);
    for _ in 0..3 {
        log.create_commit().unwrap();
    }
    let mut epoch = 0;
    apply_commit_window(&mut bob_raw, &log.window_bytes(), &mut epoch).unwrap();
    assert_eq!(epoch, 3);
    assert_eq!(log.checkpoint(), 0);
    assert_eq!(log.window_bytes().len(), 3);
}

#[test]
fn members_export_the_same_secrets() {
    let (mut alice, mut bob) = make_mls_groups();
    let first = alice.export_secret(b"quic-mls-baseline", b"", 32).unwrap();
    assert_eq!(first.len(), 32);
    assert_eq!(first, bob.export_secret(b"quic-mls-baseline", b"", 32).unwrap());
    assert_ne!(first, alice.export_secret(b"quic-mls-baseline", b"x", 32).unwrap());
    let commit = alice.create_commit().unwrap();
    assert_ne!(first, alice.export_secret(b"quic-mls-baseline", b"", 32).unwrap());
    assert_eq!(first, bob.export_secret(b"quic-mls-baseline", b"", 32).unwrap());
    bob.apply_commit(&commit).unwrap();
    assert_eq!(
        alice.export_secret(b"quic-mls-baseline", b"", 32).unwrap(),
        bob.export_secret(b"quic-mls-baseline", b"", 32).unwrap()
    );
    assert!(bob.apply_commit(b"").is_err());
    assert!(bob.apply_commit(&commit).is_err());
    assert!(alice.export_secret(b"quic-mls-baseline", b"", 100_000).is_err());
    assert!(alice.pending_commit_window().is_empty());
}

#[test]
fn racing_commit_does_not_change_the_handshake_keys() {
    let (alice, bob) = make_mls_groups();
    let mut alice = new_session(alice, Side::Client, no_params(quinn_proto::Side::Client));
    let mut bob = new_session(bob, Side::Server, no_params(quinn_proto::Side::Server));
    let (mut a, mut b) = (Vec::new(), Vec::new());
    alice.write_handshake(&mut a);
    bob.read_handshake(&a).unwrap();
    bob.write_handshake(&mut b);
    alice.create_commit().unwrap();
    alice.read_handshake(&b).unwrap();
    let mut out = Vec::new();
    let upgrade = alice.write_handshake(&mut out).unwrap();
    assert!(out.is_empty());
    assert_eq!(alice.handshake.state, HsState::ConfirmingZeroRttKeys);
    let keys = alice.write_handshake(&mut out).unwrap();
    assert_eq!(out, [0]);
    let bob_upgrade = bob.write_handshake(&mut Vec::new()).unwrap();
    let bob_keys = bob.write_handshake(&mut Vec::new()).unwrap();
    for (ours, theirs) in [(upgrade, bob_upgrade), (keys, bob_keys)] {
        assert_eq!(ours.packet.local, theirs.packet.remote);
        assert_eq!(ours.packet.remote, theirs.packet.local);
        assert_eq!(ours.header.local, theirs.header.remote);
        assert_eq!(ours.header.remote, theirs.header.local);
    }
}

#[test]
fn handshake_waits_for_the_peer() {
    let (alice, _) = make_mls_groups();
    let mut alice = new_session(alice, Side::Client, no_params(quinn_proto::Side::Client));
    let mut out = Vec::new();
    assert!(alice.write_handshake(&mut out).is_none());
    let flight = out.clone();
    assert!(alice.write_handshake(&mut out).is_none());
    assert_eq!(out, flight);
    assert_eq!(alice.handshake.state, HsState::AwaitingZeroRttKeys);
}

#[test]
fn malformed_flight_is_refused() {
    let (_, bob) = make_mls_groups();
    let mut bob = new_session(bob, Side::Server, no_params(quinn_proto::Side::Server));
    assert_eq!(bob.read_handshake(&[0x04]), Err(ParamsError::Malformed));
    assert_eq!(bob.read_handshake(&[0x0e, 1, 1]), Err(ParamsError::IllegalValue));
    assert!(bob.transport_parameters().unwrap().is_none());
    assert_eq!(bob.read_handshake(&[0x04, 1, 7]), Ok(false));
    let first = bob.transport_parameters().unwrap();
    assert_eq!(bob.read_handshake(&[0x04]), Ok(false));
    assert!(bob.transport_parameters().unwrap() == first);
}

#[test]
fn gap_in_the_flight_does_not_fail_the_handshake() {
    let (alice, bob) = make_mls_groups();
    let mut log = CommitLog::new(alice);
    for _ in 0..3 {
        log.create_commit().unwrap();
    }
    log.trim(2);
    let mut alice = new_session(log, Side::Client, no_params(quinn_proto::Side::Client));
    let mut bob = new_session(bob, Side::Server, no_params(quinn_proto::Side::Server));
    let mut flight = Vec::new();
    alice.write_handshake(&mut flight);
    assert_eq!(read_transcript_param(&flight).unwrap().len(), 1);
    assert_eq!(bob.read_handshake(&flight), Ok(false));
    assert_eq!(bob.received_epoch, 0);
}

#[test]
fn zero_cap_embeds_nothing() {
    let (alice, _) = make_mls_groups();
    let mut log = CommitLog::new(alice);
    log.create_commit().unwrap();
    let mut alice =
        MlsSession::new(log, Side::Client, no_params(quinn_proto::Side::Client), 0, 0);
    let mut flight = Vec::new();
    alice.write_handshake(&mut flight);
    let mut params = Vec::new();
    no_params(quinn_proto::Side::Client).write(&mut params);
    assert_eq!(flight, params);
    assert_eq!(read_transcript_param(&flight), None);
}

#[test]
fn first_flight_holds_the_parameters_and_the_window() {
    let (alice, _) = make_mls_groups();
    let mut log = CommitLog::new(alice);
    log.create_commit().unwrap();
    let window = log.window_bytes();
    let params =
        TransportParameters::read(quinn_proto::Side::Client, &mut &[0x04, 1, 7][..]).unwrap();
    let mut alice = MlsSession::new(log, Side::Client, params, 0, usize::MAX);
    let mut flight = vec![0xee];
    assert!(alice.write_handshake(&mut flight).is_none());
    assert_eq!(flight[0], 0xee);
    assert_eq!(find_param(&flight[1..], 0x04), Some(vec![7]));
    assert_eq!(read_transcript_param(&flight[1..]), Some(window));
}

#[test]
fn early_data_keys_are_those_of_the_client() {
    let (alice, bob) = make_mls_groups();
    let client = derive_mls_keys(&alice, "0-rtt", Side::Client, b"").unwrap();
    let alice = new_session(alice, Side::Client, no_params(quinn_proto::Side::Client));
    let bob = new_session(bob, Side::Server, no_params(quinn_proto::Side::Server));
    let (ah, ap) = alice.early_crypto().unwrap();
    let (bh, bp) = bob.early_crypto().unwrap();
    assert_eq!(ah, bh);
    assert_eq!(ap, bp);
    assert_eq!(ap, client.packet.local);
    assert_eq!(ah, client.header.local);
    assert_eq!(alice.early_data_accepted(), Some(true));
}

#[test]
fn key_updates_have_their_own_context() {
    let (alice, bob) = make_mls_groups();
    let expected = derive_mls_keys(&bob, "0-rtt", Side::Client, &[0, 0, 0, 0, 0, 0, 0, 1]).unwrap();
    let mut alice = new_session(alice, Side::Client, no_params(quinn_proto::Side::Client));
    let first = alice.next_1rtt_keys().unwrap();
    assert_eq!(alice.handshake.key_update_generation, 1);
    assert_eq!(first.local, expected.packet.local);
    assert_eq!(first.remote, expected.packet.remote);
    assert_ne!(seal(&first.local, b"x"), seal(&alice.early_crypto().unwrap().1, b"x"));
}

#[test]
fn client_assumes_parameters_until_it_hears_from_the_server() {
    let (alice, bob) = make_mls_groups();
    let alice = new_session(alice, Side::Client, no_params(quinn_proto::Side::Client));
    let bob = new_session(bob, Side::Server, no_params(quinn_proto::Side::Server));
    assert!(alice.transport_parameters().unwrap().is_some());
    assert!(bob.transport_parameters().unwrap().is_none());
}

#[test]
fn session_follows_the_protocol_for_initial_keys_and_retry() {
    let (alice, _) = make_mls_groups();
    let alice = new_session(alice, Side::Client, no_params(quinn_proto::Side::Client));
    let cid = [1u8, 2, 3, 4];
    assert_eq!(
        alice.initial_keys(&cid, Side::Server).packet.local,
        derive_initial_keys(&cid, Side::Server).packet.local
    );
    let mut config = MlsServerConfig::new(make_mls_groups().1, 0, 0);
    let tag = config.retry_tag(&cid, b"retry");
    let mut payload = b"try".to_vec();
    payload.extend_from_slice(&tag);
    assert!(alice.is_valid_retry(&cid, b"re", &payload));
    assert!(!alice.is_valid_retry(&cid, b"er", &payload));
    assert_eq!(
        config.initial_keys(&cid).packet.remote,
        derive_initial_keys(&cid, Side::Server).packet.remote
    );
    let session = config.start_session(&no_params(quinn_proto::Side::Server));
    assert!(session.is_handshaking());
    let mut out = [5u8; 3];
    assert_eq!(
        alice.export_keying_material(&mut out, b"l", b"c"),
        Err(ExportKeyingMaterialError)
    );
    assert_eq!(out, [5; 3]);
}

#[test]
fn configurations_start_one_session() {
    let (alice, bob) = make_mls_groups();
    let params = no_params(quinn_proto::Side::Client);
    let mut client = MlsClientConfig::new(alice, 77);
    assert!(client.group.is_some());
    let session = client.start_session(&params);
    assert_eq!(session.handshake.side, Side::Client);
    assert_eq!(session.handshake.transcript_cap, 77);
    assert_eq!(session.received_epoch, 0);
    assert_eq!(session.handshake.state, HsState::Initial);
    assert!(session.handshake.cached_peer_params.is_some());
    assert!(session.handshake.replayed.is_none());
    assert!(client.group.is_none());
    let mut server = MlsServerConfig::new(bob, 9, 5);
    assert!(server.group.is_some());
    let session = server.start_session(&params);
    assert_eq!(session.handshake.side, Side::Server);
    assert_eq!(session.received_epoch, 9);
    assert_eq!(session.handshake.transcript_cap, 5);
    assert!(session.handshake.cached_peer_params.is_none());
    assert!(server.group.is_none());
}

#[test]
fn control_messages_round_trip() {
    assert_eq!(encode(&ControlMessage::Report(258)), [2, 0, 0, 0, 0, 0, 0, 1, 2]);
    assert_eq!(encode(&ControlMessage::Hello), [3]);
    for message in [ControlMessage::Hello, ControlMessage::Report(0), ControlMessage::Report(u64::MAX)] {
        let bytes = encode(&message);
        assert_eq!(message_body_len(bytes[0]), Ok(bytes.len() - 1));
        assert_eq!(decode(bytes[0], &bytes[1..]), Ok(message));
    }
    for other in [0u8, 1, 4, 255] {
        assert_eq!(message_body_len(other), Err(InvalidMessageType));
        assert_eq!(decode(other, &[]), Err(InvalidMessageType));
    }
}

#[test]
fn reports_are_sent_while_switched_on() {
    assert_eq!(
        report_step(ReportEvent::Epoch(4, true)),
        ReportAction::Write(ControlMessage::Report(4))
    );
    assert_eq!(report_step(ReportEvent::Epoch(4, false)), ReportAction::AwaitChange);
    assert_eq!(report_step(ReportEvent::Written(true)), ReportAction::AwaitChange);
    assert_eq!(report_step(ReportEvent::Written(false)), ReportAction::Stop);
    assert_eq!(report_step(ReportEvent::Changed(true)), ReportAction::ReadEpoch);
    assert_eq!(report_step(ReportEvent::Changed(false)), ReportAction::Stop);
}

#[test]
fn member_joins_by_its_key_package() {
    let alice = make_client("alice");
    let bob = make_client("bob");
    let mut group = alice.create_group().unwrap();
    let alone = group.export_secret(b"l", b"c", 16).unwrap();

    assert!(group.add_member(b"no key package").is_err());
    assert_eq!(group.export_secret(b"l", b"c", 16).unwrap(), alone);

    let key_package = bob.key_package().unwrap();
    assert_ne!(key_package, bob.key_package().unwrap());
    let welcome = group.add_member(&key_package).unwrap();
    assert_ne!(welcome, key_package);
    let both = group.export_secret(b"l", b"c", 16).unwrap();
    assert_ne!(both, alone);

    assert!(bob.join(b"no welcome").is_err());
    assert!(bob.join(&key_package).is_err());
    assert!(alice.join(&welcome).is_err());
    let joined = bob.join(&welcome).unwrap();
    assert_eq!(joined.export_secret(b"l", b"c", 16).unwrap(), both);

    let other = make_client("carol").create_group().unwrap();
    assert_ne!(other.export_secret(b"l", b"c", 16).unwrap(), alone);
}

#[test]
fn welcome_is_no_key_package() {
    let alice = make_client("alice");
    let mut group = alice.create_group().unwrap();
    let welcome = group.add_member(&make_client("bob").key_package().unwrap()).unwrap();
    let before = group.export_secret(b"l", b"c", 16).unwrap();
    assert!(group.add_member(&welcome).is_err());
    assert_eq!(group.export_secret(b"l", b"c", 16).unwrap(), before);
}

#[test]
fn outcome_of_the_replay_is_kept() {
    let (alice, bob) = make_mls_groups();
    let mut log = CommitLog::new(alice);
    for _ in 0..3 {
        log.create_commit().unwrap();
    }
    let whole = log.window_bytes();
    let mut alice = new_session(log, Side::Client, no_params(quinn_proto::Side::Client));
    let mut flight = Vec::new();
    alice.write_handshake(&mut flight);

    let mut bob = new_session(bob, Side::Server, no_params(quinn_proto::Side::Server));
    bob.read_handshake(&flight).unwrap();
    assert!(matches!(bob.handshake.replayed, Some(Ok(()))));
    assert_eq!(bob.received_epoch, 3);

    let (_, stranger) = make_mls_groups();
    let mut stranger = new_session(stranger, Side::Server, no_params(quinn_proto::Side::Server));
    assert_eq!(stranger.read_handshake(&flight), Ok(false));
    assert!(matches!(
        stranger.handshake.replayed,
        Some(Err(CommitWindowError::CommitRejected(_)))
    ));
    assert_eq!(stranger.received_epoch, 0);

    let (_, mut group) = make_mls_groups();
    let mut late = Handshake::new(Side::Server, no_params(quinn_proto::Side::Server), 0);
    let mut param = Vec::new();
    quic_mls::transcript::write_transcript_param(&mut param, &whole[1..], usize::MAX);
    let mut epoch = 0;
    assert_eq!(late.read(&mut group, &mut epoch, &param), Ok(false));
    assert!(matches!(late.replayed, Some(Err(CommitWindowError::ResyncNeeded))));
    assert_eq!(epoch, 0);

    let mut plain = Handshake::new(Side::Server, no_params(quinn_proto::Side::Server), 0);
    assert_eq!(plain.read(&mut group, &mut epoch, &[]), Ok(false));
    assert!(plain.replayed.is_none());
}

#[test]
fn handshake_works_on_a_borrowed_group() {
    let (mut alice, mut bob) = make_mls_groups();
    let mut ours = Handshake::new(Side::Client, no_params(quinn_proto::Side::Client), 0);
    let mut theirs = Handshake::new(Side::Server, no_params(quinn_proto::Side::Server), 0);
    assert!(ours.early_crypto(&alice).unwrap() == theirs.early_crypto(&bob).unwrap());
    let (mut a, mut b) = (Vec::new(), Vec::new());
    assert!(ours.write(&alice, &mut a).is_none());
    assert!(theirs.write(&bob, &mut b).is_none());
    ours.read(&mut alice, &mut 0, &b).unwrap();
    theirs.read(&mut bob, &mut 0, &a).unwrap();
    assert!(ours.transport_parameters().unwrap().is_some());
    for _ in 0..2 {
        let our_keys = ours.write(&alice, &mut a).unwrap();
        let their_keys = theirs.write(&bob, &mut b).unwrap();
        assert_eq!(our_keys.packet.local, their_keys.packet.remote);
        assert_eq!(our_keys.packet.remote, their_keys.packet.local);
    }
    assert!(!ours.is_handshaking() && !theirs.is_handshaking());
    for generation in 1..4 {
        let our_keys = ours.next_1rtt_keys(&alice).unwrap();
        let their_keys = theirs.next_1rtt_keys(&bob).unwrap();
        assert_eq!(ours.key_update_generation, generation);
        assert_eq!(our_keys.local, their_keys.remote);
        assert_eq!(our_keys.remote, their_keys.local);
    }
}

#[test]
fn log_passes_on_what_the_group_refuses() {
    let (alice, bob) = make_mls_groups();
    let mut log = CommitLog::new(alice);
    let mut group = bob;
    let refused = log.apply_commit(b"no commit").unwrap_err();
    assert_eq!(format!("{refused:?}"), format!("{:?}", group.apply_commit(b"no commit").unwrap_err()));
    assert_eq!(log.checkpoint(), 0);
    assert!(log.window_bytes().is_empty());
}

#[test]
fn second_replay_changes_nothing() {
    let (alice, mut bob) = make_mls_groups();
    let mut log = CommitLog::new(alice);
    for _ in 0..4 {
        log.create_commit().unwrap();
    }
    let mut window = log.window_bytes();
    window.remove(2);
    let mut epoch = 0;
    for _ in 0..2 {
        let outcome = apply_commit_window(&mut bob, &window, &mut epoch);
        assert!(matches!(outcome, Err(CommitWindowError::ResyncNeeded)));
        assert_eq!(epoch, 2);
    }
    let reached = bob.export_secret(b"l", b"c", 16).unwrap();
    let whole = log.window_bytes();
    apply_commit_window(&mut bob, &whole[..2], &mut epoch).unwrap();
    assert_eq!(bob.export_secret(b"l", b"c", 16).unwrap(), reached);
    for _ in 0..2 {
        apply_commit_window(&mut bob, &whole, &mut epoch).unwrap();
        assert_eq!(epoch, 4);
    }
}
