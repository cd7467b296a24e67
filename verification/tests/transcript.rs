use quic_mls::params::{encode_transport_param, find_param, put_param, synthetic_cached_peer_params};
use quic_mls::preamble::{
    bucket_window, entry_wire_len, handle_preamble_datagram, is_preamble_marker, parse_preamble,
    preamble_datagrams, preamble_len, receive_datagram, recv_start, recv_step, PreambleAction,
    Received, RecvAction, SocketEvent,
};
use quic_mls::transcript::{read_transcript_param, write_transcript_param, TRANSCRIPT_PARAM};
use quic_mls::wire::{put_be, read_be};
use quic_mls::{decode_transcript, encode_transcript, Side, TranscriptDecodeError};
use quinn_proto::transport_parameters::TransportParameters;

fn window(lens: &[usize]) -> Vec<(u64, Vec<u8>)> {
    lens.iter().enumerate().map(|(i, n)| (i as u64 + 1, vec![i as u8 + 1; *n])).collect()
}

#[test]
fn integers_are_big_endian() {
    let mut out = vec![9];
    put_be(&mut out, 0x0102030405060708, 8);
    put_be(&mut out, 0x0102030405060708, 4);
    assert_eq!(out, [9, 1, 2, 3, 4, 5, 6, 7, 8, 5, 6, 7, 8]);
    assert_eq!(read_be(&out, 1, 8), 0x0102030405060708);
    assert_eq!(read_be(&out, 11, 2), 0x0708);
    assert_eq!(read_be(&out, 3, 0), 0);
}

#[test]
fn transcript_has_a_fixed_layout() {
    let w = vec![(258u64, vec![0xaa, 0xbb])];
    let bytes = encode_transcript(&w, usize::MAX);
    assert_eq!(
        bytes,
        [
            0x51, 0x4d, 0x54, 0x31, 0, 0, 0, 1, 0, 0, 0, 0, 0, 0, 1, 2, 0, 0, 0, 2, 0xaa, 0xbb
        ]
    );
    assert_eq!(&bytes[..4], b"QMT1");
    assert_eq!(decode_transcript(&bytes), Ok(w));
}

#[test]
fn encoding_keeps_the_longest_prefix_that_fits() {
    let w = window(&[10, 0, 100]);
    assert_eq!(encode_transcript(&w, 0), []);
    assert_eq!(encode_transcript(&w, 29), []);
    for (limit, count) in [(30, 1), (41, 1), (42, 2), (153, 2), (154, 3), (usize::MAX, 3)] {
        let bytes = encode_transcript(&w, limit);
        assert!(bytes.len() <= limit);
        assert_eq!(decode_transcript(&bytes), Ok(w[..count].to_vec()));
    }
    assert_eq!(encode_transcript(&[], usize::MAX), []);
    let blocked = window(&[100, 1]);
    assert_eq!(encode_transcript(&blocked, 50), []);
}

#[test]
fn trailing_bytes_are_ignored() {
    let w = window(&[3, 5]);
    let mut bytes = encode_transcript(&w, usize::MAX);
    bytes.extend_from_slice(&[1, 2, 3]);
    assert_eq!(decode_transcript(&bytes), Ok(w));
}

#[test]
fn damaged_transcripts_are_refused() {
    let bytes = encode_transcript(&window(&[3, 5]), usize::MAX);
    for n in 0..bytes.len() {
        assert_eq!(decode_transcript(&bytes[..n]), Err(TranscriptDecodeError::Truncated));
    }
    let mut bad = bytes.clone();
    bad[3] ^= 1;
    assert_eq!(decode_transcript(&bad), Err(TranscriptDecodeError::BadMagic));
    let mut short = b"QMT0".to_vec();
    assert_eq!(decode_transcript(&short), Err(TranscriptDecodeError::Truncated));
    short.extend_from_slice(&[0; 4]);
    assert_eq!(decode_transcript(&short), Err(TranscriptDecodeError::BadMagic));
    let mut huge = b"QMT1".to_vec();
    huge.extend_from_slice(&[0xff; 4]);
    assert_eq!(decode_transcript(&huge), Err(TranscriptDecodeError::Truncated));
    let mut long_entry = b"QMT1\0\0\0\x01".to_vec();
    long_entry.extend_from_slice(&[0xff; 12]);
    assert_eq!(decode_transcript(&long_entry), Err(TranscriptDecodeError::Truncated));
    assert_eq!(decode_transcript(b"QMT1\0\0\0\0"), Ok(vec![]));
}

#[test]
fn decode_errors_in_words() {
    assert_eq!(TranscriptDecodeError::Truncated.message(), "transcript blob is truncated");
    assert_eq!(TranscriptDecodeError::BadMagic.message(), "transcript magic bytes did not match");
}

#[test]
fn transcript_parameter_is_found_behind_others() {
    let w = window(&[20, 30]);
    let mut buf = Vec::new();
    encode_transport_param(&mut buf, 0x04, 65536);
    put_param(&mut buf, 0x1b, b"grease");
    let head = buf.clone();
    write_transcript_param(&mut buf, &w, usize::MAX);
    assert_eq!(&buf[..head.len()], &head[..]);
    assert_eq!(read_transcript_param(&buf), Some(w.clone()));
    assert_eq!(read_transcript_param(&head), None);

    let mut capped = head.clone();
    write_transcript_param(&mut capped, &w, 45);
    assert_eq!(read_transcript_param(&capped), Some(w[..1].to_vec()));
    let mut none = head.clone();
    write_transcript_param(&mut none, &w, 0);
    write_transcript_param(&mut none, &[], usize::MAX);
    assert_eq!(none, head);
}

#[test]
fn damaged_transcript_parameter_is_ignored() {
    let mut buf = Vec::new();
    put_param(&mut buf, TRANSCRIPT_PARAM, b"no transcript");
    assert_eq!(read_transcript_param(&buf), None);
    assert_eq!(find_param(&buf, TRANSCRIPT_PARAM), Some(b"no transcript".to_vec()));
    assert_eq!(find_param(&buf[..buf.len() - 1], TRANSCRIPT_PARAM), None);
    assert_eq!(find_param(&buf, 7), None);
    assert_eq!(find_param(&[], 7), None);
}

#[test]
fn parameters_have_the_encoding_of_quic() {
    let mut buf = Vec::new();
    encode_transport_param(&mut buf, 0x04, 65536);
    encode_transport_param(&mut buf, 0x08, 1);
    encode_transport_param(&mut buf, 0x20, 0x1234);
    encode_transport_param(&mut buf, 0x20, 0x3fff_ffff_ffff_ffff);
    assert_eq!(
        buf,
        [
            0x04, 4, 0x80, 0x01, 0x00, 0x00, 0x08, 1, 1, 0x20, 2, 0x52, 0x34, 0x20, 8, 0xff, 0xff,
            0xff, 0xff, 0xff, 0xff, 0xff, 0xff
        ]
    );
}

#[test]
fn cached_parameters_allow_one_stream() {
    let params = synthetic_cached_peer_params(Side::Client);
    let mut written = Vec::new();
    params.write(&mut written);
    assert_eq!(find_param(&written, 0x04), Some(vec![0x80, 0x01, 0x00, 0x00]));
    assert_eq!(find_param(&written, 0x06), Some(vec![0x80, 0x01, 0x00, 0x00]));
    assert_eq!(find_param(&written, 0x08), Some(vec![1]));
    assert_eq!(find_param(&written, 0x09), None);
}

#[test]
fn transcript_does_not_disturb_the_parameters() {
    let mut buf = Vec::new();
    encode_transport_param(&mut buf, 0x04, 77);
    let plain = TransportParameters::read(quinn_proto::Side::Client, &mut buf.as_slice()).unwrap();
    write_transcript_param(&mut buf, &window(&[50]), usize::MAX);
    let both = TransportParameters::read(quinn_proto::Side::Client, &mut buf.as_slice()).unwrap();
    assert!(plain == both);
}

#[test]
fn preamble_marker_has_both_high_bits_clear() {
    assert!(is_preamble_marker(0x00));
    assert!(is_preamble_marker(0x3f));
    assert!(!is_preamble_marker(0x40));
    assert!(!is_preamble_marker(0x80));
    assert!(!is_preamble_marker(0xc3));
}

#[test]
fn buckets_respect_both_budgets() {
    assert_eq!(entry_wire_len(&(1, vec![0; 30])), 42);
    let w = window(&[30, 30, 30]);
    assert_eq!(bucket_window(&w, usize::MAX, 92), vec![w[..2].to_vec(), w[2..].to_vec()]);
    assert_eq!(bucket_window(&w, usize::MAX, 91), vec![w[..1].to_vec(), w[1..2].to_vec(), w[2..].to_vec()]);
    assert_eq!(bucket_window(&w, usize::MAX, 1000), vec![w.clone()]);
    assert_eq!(bucket_window(&w, 83, 1000), vec![w[..1].to_vec()]);
    assert_eq!(bucket_window(&w, 84, 1000), vec![w[..2].to_vec()]);
    assert!(bucket_window(&w, 41, 1000).is_empty());
    assert!(bucket_window(&w, usize::MAX, 49).is_empty());
    assert!(bucket_window(&w, usize::MAX, 3).is_empty());
    assert!(bucket_window(&[], usize::MAX, 1000).is_empty());
}

#[test]
fn oversized_entry_stops_the_window() {
    let w = window(&[10, 5000, 10]);
    assert_eq!(bucket_window(&w, usize::MAX, 1199), vec![w[..1].to_vec()]);
}

#[test]
fn datagrams_carry_the_window_in_pieces() {
    let w = window(&[500, 500, 500, 500, 500]);
    let datagrams = preamble_datagrams(&w, usize::MAX);
    assert_eq!(datagrams.len(), 3);
    let mut seen = Vec::new();
    let mut total = 0;
    for d in &datagrams {
        assert!(d.len() <= 1200);
        assert_eq!(d[0], 0);
        total += d.len() as u64;
        seen.extend(parse_preamble(d).unwrap().unwrap());
    }
    assert_eq!(seen, w);
    assert_eq!(total, 5 * 512 + 3 * 9);
    assert_eq!(preamble_len(&datagrams), total);
    assert_eq!(preamble_len(&[]), 0);
    assert!(preamble_datagrams(&w, 511).is_empty());
}

#[test]
fn datagrams_are_told_from_packets() {
    assert_eq!(parse_preamble(&[]), None);
    assert_eq!(parse_preamble(&[0x40, 1, 2]), None);
    assert_eq!(parse_preamble(&[0xc0]), None);
    assert_eq!(parse_preamble(&[0x00]), Some(Err(TranscriptDecodeError::Truncated)));
    assert_eq!(
        parse_preamble(&[0x3f, 0, 0, 0, 0, 0, 0, 0, 0]),
        Some(Err(TranscriptDecodeError::BadMagic))
    );
    assert!(matches!(receive_datagram(&[], true), Received::Packet));
    assert!(matches!(receive_datagram(&[0x41], true), Received::Packet));
    assert!(matches!(
        receive_datagram(&[0x01], true),
        Received::Preamble(PreambleAction::Malformed(TranscriptDecodeError::Truncated))
    ));
}

#[test]
fn preambles_go_to_the_sink() {
    let w = window(&[4, 4]);
    let blob = encode_transcript(&w, usize::MAX);
    match handle_preamble_datagram(&blob, true) {
        PreambleAction::Deliver(given) => assert_eq!(given, w),
        _ => panic!("the window must be delivered"),
    }
    assert!(matches!(handle_preamble_datagram(&blob, false), PreambleAction::NoSink(2)));
    assert!(matches!(
        handle_preamble_datagram(b"QMT1", true),
        PreambleAction::Malformed(TranscriptDecodeError::Truncated)
    ));
    let d = &preamble_datagrams(&w, usize::MAX)[0];
    assert!(matches!(receive_datagram(d, false), Received::Preamble(PreambleAction::NoSink(2))));
}

#[test]
fn receive_loop_fills_the_buffers() {
    assert_eq!(recv_start(0), RecvAction::Finish);
    assert_eq!(recv_start(2), RecvAction::Poll);
    assert_eq!(recv_step(0, 2, SocketEvent::Readable), (0, RecvAction::Read));
    assert_eq!(recv_step(0, 2, SocketEvent::PreambleRead), (0, RecvAction::Poll));
    assert_eq!(recv_step(0, 2, SocketEvent::PacketRead), (1, RecvAction::Poll));
    assert_eq!(recv_step(1, 2, SocketEvent::PacketRead), (2, RecvAction::Finish));
    assert_eq!(recv_step(0, 2, SocketEvent::NotReady), (0, RecvAction::Pend));
    assert_eq!(recv_step(0, 2, SocketEvent::WouldBlock), (0, RecvAction::Poll));
    assert_eq!(recv_step(0, 2, SocketEvent::PollFailed), (0, RecvAction::Fail));
    assert_eq!(recv_step(0, 2, SocketEvent::ReadFailed), (0, RecvAction::Fail));
    for event in [
        SocketEvent::NotReady,
        SocketEvent::WouldBlock,
        SocketEvent::PollFailed,
        SocketEvent::ReadFailed,
    ] {
        assert_eq!(recv_step(1, 2, event), (1, RecvAction::Finish));
    }
}
