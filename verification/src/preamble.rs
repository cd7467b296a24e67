//! Preambles: commit windows sent beside a QUIC connection, as UDP datagrams of their own.
//!
//! A preamble datagram is a marker byte and a transcript. The marker has the two high bits clear;
//! every QUIC packet has at least one of them set, as long as neither peer greases the fixed bit.

use vstd::prelude::*;
use crate::group::ExportSecret;
use crate::replay;
use crate::transcript::{decode_transcript, encode_transcript, TranscriptDecodeError};
use crate::transcript;
use crate::wire;

verus! {

/// The first byte of a preamble datagram.
pub const PREAMBLE_MARKER: u8 = 0x00;

/// The most bytes that a preamble datagram may have.
pub const MAX_DATAGRAM_PAYLOAD: usize = 1200;

/// What a received preamble asks for.
pub enum PreambleAction {
    /// Hand the window to the sink.
    Deliver(Vec<(u64, Vec<u8>)>),
    /// Drop the window, of so many entries: there is no sink.
    NoSink(usize),
    /// Drop the datagram: it is no transcript.
    Malformed(TranscriptDecodeError),
}

/// What a received datagram is.
pub enum Received {
    /// A preamble, which asks for an action.
    Preamble(PreambleAction),
    /// A packet of the connection, which stays in the receive buffer.
    Packet,
}

/// What happened to a socket that datagrams are received from.
#[derive(Debug, Clone, Copy, PartialEq, Eq, Structural)]
pub enum SocketEvent {
    /// It is ready to be read.
    Readable,
    /// It is not ready, and will wake the task.
    NotReady,
    /// Waiting for it failed.
    PollFailed,
    /// It gave a preamble.
    PreambleRead,
    /// It gave a packet, which fills one receive buffer more.
    PacketRead,
    /// It was not ready after all.
    WouldBlock,
    /// Reading it failed.
    ReadFailed,
}

/// What a receive loop does next.
#[derive(Debug, Clone, Copy, PartialEq, Eq, Structural)]
pub enum RecvAction {
    /// Wait until the socket is ready.
    Poll,
    /// Read a datagram into the next receive buffer.
    Read,
    /// Return the receive buffers that are filled.
    Finish,
    /// Return without a result until the socket wakes the task.
    Pend,
    /// Return the error that the socket gave.
    Fail,
}

/// Whether an entry fits in a datagram of its own.
pub open spec fn entry_fits(entry: (u64, Seq<u8>), per_datagram_budget: nat) -> bool {
    transcript::TRANSCRIPT_HEADER_LEN + transcript::entry_len(entry) <= per_datagram_budget
}

/// Whether every entry fits in a datagram of its own, and all together in the total budget.
pub open spec fn sendable(
    window: Seq<(u64, Seq<u8>)>,
    total_budget: nat,
    per_datagram_budget: nat,
) -> bool {
    &&& transcript::entries_len(window) <= total_budget
    &&& forall|i: int|
        0 <= i < window.len() ==> entry_fits(#[trigger] window[i], per_datagram_budget)
}

/// The length of the longest prefix of `window` that can be sent.
pub open spec fn admitted(
    window: Seq<(u64, Seq<u8>)>,
    total_budget: nat,
    per_datagram_budget: nat,
) -> nat
    decreases window.len(),
{
    if window.len() == 0 || sendable(window, total_budget, per_datagram_budget) {
        window.len()
    } else {
        admitted(window.drop_last(), total_budget, per_datagram_budget)
    }
}

/// The entries of `window` in buckets: each entry goes into the newest bucket if the transcript of
/// that bucket stays within the budget, and else opens a new one.
pub open spec fn packed(window: Seq<(u64, Seq<u8>)>, per_datagram_budget: nat) -> Seq<
    Seq<(u64, Seq<u8>)>,
>
    decreases window.len(),
{
    if window.len() == 0 {
        Seq::empty()
    } else {
        let buckets = packed(window.drop_last(), per_datagram_budget);
        let entry = window.last();
        if buckets.len() > 0 && transcript::TRANSCRIPT_HEADER_LEN + transcript::entries_len(
            buckets.last(),
        ) + transcript::entry_len(entry) <= per_datagram_budget {
            buckets.drop_last().push(buckets.last().push(entry))
        } else {
            buckets.push(seq![entry])
        }
    }
}

/// Buckets with their byte vectors taken by their contents.
pub open spec fn buckets_view(buckets: Seq<Vec<(u64, Vec<u8>)>>) -> Seq<Seq<(u64, Seq<u8>)>> {
    Seq::new(buckets.len(), |i: int| wire::window_view(buckets[i]@))
}

/// The buckets that `bucket_window` returns.
pub open spec fn bucketed(
    window: Seq<(u64, Seq<u8>)>,
    total_budget: nat,
    per_datagram_budget: nat,
) -> Seq<Seq<(u64, Seq<u8>)>> {
    packed(
        window.take(admitted(window, total_budget, per_datagram_budget) as int),
        per_datagram_budget,
    )
}

/// The entries of all buckets, in their order.
pub open spec fn unpacked(buckets: Seq<Seq<(u64, Seq<u8>)>>) -> Seq<(u64, Seq<u8>)>
    decreases buckets.len(),
{
    if buckets.len() == 0 {
        Seq::empty()
    } else {
        unpacked(buckets.drop_last()) + buckets.last()
    }
}

/// A bucket as a preamble datagram.
pub open spec fn datagram_bytes(bucket: Seq<(u64, Seq<u8>)>) -> Seq<u8> {
    seq![PREAMBLE_MARKER] + transcript::transcript_bytes(bucket)
}

/// The datagrams that `preamble_datagrams` returns.
pub open spec fn datagrams_of(window: Seq<(u64, Seq<u8>)>, total_budget: nat) -> Seq<Seq<u8>> {
    let buckets = bucketed(window, total_budget, (MAX_DATAGRAM_PAYLOAD - 1) as nat);
    Seq::new(buckets.len(), |i: int| datagram_bytes(buckets[i]))
}

/// Byte vectors taken by their contents.
pub open spec fn bytes_view(v: Seq<Vec<u8>>) -> Seq<Seq<u8>> {
    Seq::new(v.len(), |i: int| v[i]@)
}

/// How many bytes there are in all.
pub open spec fn total_len(v: Seq<Seq<u8>>) -> nat
    decreases v.len(),
{
    if v.len() == 0 {
        0
    } else {
        total_len(v.drop_last()) + v.last().len()
    }
}

/// What `parse_preamble` returns: nothing for a packet of the connection, and else what decoding
/// the bytes behind the marker gives.
pub open spec fn preamble_parsed(datagram: Seq<u8>) -> Option<
    Result<Seq<(u64, Seq<u8>)>, TranscriptDecodeError>,
> {
    if datagram.len() == 0 || datagram[0] >= 0x40 {
        None
    } else {
        Some(transcript::decoded(datagram.skip(1)))
    }
}

/// What a preamble with these bytes behind the marker asks for.
pub open spec fn asks_for(action: PreambleAction, payload: Seq<u8>, has_sink: bool) -> bool {
    match transcript::decoded(payload) {
        Err(e) => action == PreambleAction::Malformed(e),
        Ok(window) => if has_sink {
            action matches PreambleAction::Deliver(given) && wire::window_view(given@) == window
        } else {
            action matches PreambleAction::NoSink(entries) && entries == window.len()
        },
    }
}

/// Whether this is what a datagram is received as.
pub open spec fn received_as(r: Received, datagram: Seq<u8>, has_sink: bool) -> bool {
    match r {
        Received::Packet => preamble_parsed(datagram) is None,
        Received::Preamble(action) => preamble_parsed(datagram) is Some && asks_for(
            action,
            datagram.skip(1),
            has_sink,
        ),
    }
}

/// How many receive buffers are filled after an event, and what the receive loop does next.
pub open spec fn recv_next(filled: nat, capacity: nat, event: SocketEvent) -> (nat, RecvAction) {
    let now = if event == SocketEvent::PacketRead {
        filled + 1
    } else {
        filled
    };
    let action = match event {
        SocketEvent::Readable => RecvAction::Read,
        SocketEvent::PreambleRead => RecvAction::Poll,
        SocketEvent::PacketRead if now == capacity => RecvAction::Finish,
        SocketEvent::PacketRead => RecvAction::Poll,
        _ if filled > 0 => RecvAction::Finish,
        SocketEvent::NotReady => RecvAction::Pend,
        SocketEvent::WouldBlock => RecvAction::Poll,
        SocketEvent::PollFailed | SocketEvent::ReadFailed => RecvAction::Fail,
    };
    (now, action)
}

/// Law: a window is delivered exactly where a transcript arrives and there is a sink, and then it
/// is the window of that transcript, whatever its number of entries; it is dropped for want of a
/// sink only where there is none, and called malformed only where no transcript arrives.
pub proof fn transcripts_go_to_the_sink(action: PreambleAction, payload: Seq<u8>, has_sink: bool)
    requires
        asks_for(action, payload, has_sink),
    ensures
        action is Deliver <==> has_sink && transcript::decoded(payload) is Ok,
        action is NoSink <==> !has_sink && transcript::decoded(payload) is Ok,
        action is Malformed <==> transcript::decoded(payload) is Err,
        action matches PreambleAction::Deliver(given) ==> transcript::decoded(payload) == Ok::<
            Seq<(u64, Seq<u8>)>,
            TranscriptDecodeError,
        >(wire::window_view(given@)),
        action matches PreambleAction::NoSink(entries) ==> entries == transcript::decoded(
            payload,
        )->Ok_0.len(),
        action matches PreambleAction::Malformed(e) ==> transcript::decoded(payload) == Err::<
            Seq<(u64, Seq<u8>)>,
            TranscriptDecodeError,
        >(e),
{
}

/// Law: each datagram that a sender makes of a window is, at a receiver with a sink, delivered as
/// exactly the entries that it was made of; without a sink it is dropped, and its entries counted.
pub proof fn every_piece_is_delivered(
    window: Seq<(u64, Seq<u8>)>,
    total_budget: nat,
    b: int,
    has_sink: bool,
    r: Received,
)
    requires
        0 <= b < datagrams_of(window, total_budget).len(),
        received_as(r, datagrams_of(window, total_budget)[b], has_sink),
    ensures
        ({
            let piece = bucketed(window, total_budget, 1199)[b];
            if has_sink {
                r matches Received::Preamble(PreambleAction::Deliver(given)) && wire::window_view(
                    given@,
                ) == piece
            } else {
                r matches Received::Preamble(PreambleAction::NoSink(entries)) && entries
                    == piece.len()
            }
        }),
{
    datagrams_carry_window(window, total_budget);
    assert(preamble_parsed(datagrams_of(window, total_budget)[b]) is Some);
}

/// Law: a datagram is a preamble if and only if it has a first byte, with both high bits clear. So
/// every other datagram is handed on as a packet, with or without a sink.
pub proof fn two_bits_tell_preambles(datagram: Seq<u8>, has_sink: bool, r: Received)
    requires
        received_as(r, datagram, has_sink),
    ensures
        r is Packet <==> datagram.len() == 0 || datagram[0] & 0xc0 != 0,
        preamble_parsed(datagram) is None <==> datagram.len() == 0 || datagram[0] & 0xc0 != 0,
        preamble_parsed(datagram) matches Some(parsed) ==> parsed == transcript::decoded(
            datagram.skip(1),
        ),
{
    if datagram.len() > 0 {
        let first = datagram[0];
        assert((first & 0xc0 != 0) == (first >= 0x40)) by (bit_vector);
    }
}

/// Law: a preamble datagram is a zero byte and the transcript of its piece, has at most 1200 bytes,
/// and there is one for each piece.
pub proof fn datagrams_are_marked_transcripts(window: Seq<(u64, Seq<u8>)>, total_budget: nat)
    ensures
        ({
            let pieces = bucketed(window, total_budget, 1199);
            let datagrams = datagrams_of(window, total_budget);
            &&& datagrams.len() == pieces.len()
            &&& forall|b: int|
                0 <= b < datagrams.len() ==> {
                    &&& #[trigger] datagrams[b] == seq![0u8] + transcript::transcript_bytes(
                        pieces[b],
                    )
                    &&& datagrams[b].len() <= 1200
                }
        }),
{
    datagrams_carry_window(window, total_budget);
}

/// Law: entries are sent from the front of a window until one would break a limit: those that are
/// sent take no more bytes together than the total budget, and each alone fits in the transcript of
/// a datagram; the next one would exceed the one or does not fit in the other.
pub proof fn entries_are_sent_up_to_the_limits(
    window: Seq<(u64, Seq<u8>)>,
    total_budget: nat,
    per_datagram_budget: nat,
)
    ensures
        ({
            let sent = unpacked(bucketed(window, total_budget, per_datagram_budget));
            let k = sent.len() as int;
            &&& k <= window.len()
            &&& sent == window.take(k)
            &&& transcript::entries_bytes(sent).len() <= total_budget
            &&& forall|i: int|
                0 <= i < k ==> transcript::transcript_bytes(seq![#[trigger] window[i]]).len()
                    <= per_datagram_budget
            &&& k < window.len() ==> transcript::entries_bytes(window.take(k + 1)).len()
                > total_budget || transcript::transcript_bytes(seq![window[k]]).len()
                > per_datagram_budget
        }),
{
    let k = admitted(window, total_budget, per_datagram_budget) as int;
    let prefix = window.take(k);
    admitted_is_longest(window, total_budget, per_datagram_budget);
    packing_keeps_entries(prefix, per_datagram_budget);
    transcript::lemma_entries_bytes_len(prefix);
    assert forall|i: int| 0 <= i < window.len() implies transcript::transcript_bytes(
        seq![#[trigger] window[i]],
    ).len() == 8 + transcript::entry_len(window[i]) by {
        let one = seq![window[i]];
        transcript::lemma_entries_bytes_len(one);
        wire::lemma_be_bytes_len(one.len(), 4);
        assert(one.drop_last() =~= Seq::empty());
        assert(transcript::entries_len(one.drop_last()) == 0);
        assert(one.last() == window[i]);
    }
    assert forall|i: int| 0 <= i < k implies transcript::transcript_bytes(
        seq![#[trigger] window[i]],
    ).len() <= per_datagram_budget by {
        assert(entry_fits(prefix[i], per_datagram_budget));
    }
    if k < window.len() {
        let more = window.take(k + 1);
        transcript::lemma_entries_bytes_len(more);
        assert(!sendable(more, total_budget, per_datagram_budget));
        if transcript::entries_len(more) <= total_budget {
            let i = choose|i: int|
                0 <= i < more.len() && !entry_fits(#[trigger] more[i], per_datagram_budget);
            if i < k {
                assert(entry_fits(prefix[i], per_datagram_budget));
                assert(more[i] == prefix[i]);
            }
        }
    }
}

/// Law: a piece that is sent holds at least one entry, and its transcript keeps within the budget
/// of a datagram; a new piece is begun only where the next entry would take the last one beyond it.
pub proof fn pieces_are_as_full_as_they_can_be(
    window: Seq<(u64, Seq<u8>)>,
    total_budget: nat,
    per_datagram_budget: nat,
)
    ensures
        ({
            let pieces = bucketed(window, total_budget, per_datagram_budget);
            &&& forall|b: int|
                0 <= b < pieces.len() ==> (#[trigger] pieces[b]).len() > 0
                    && transcript::transcript_bytes(pieces[b]).len() <= per_datagram_budget
            &&& forall|b: int|
                0 < b < pieces.len() ==> transcript::transcript_bytes(
                    pieces[b - 1].push((#[trigger] pieces[b])[0]),
                ).len() > per_datagram_budget
        }),
{
    let k = admitted(window, total_budget, per_datagram_budget) as int;
    let prefix = window.take(k);
    let pieces = bucketed(window, total_budget, per_datagram_budget);
    admitted_is_longest(window, total_budget, per_datagram_budget);
    packing_keeps_entries(prefix, per_datagram_budget);
    buckets_are_full(prefix, per_datagram_budget);
    assert forall|b: int| 0 <= b < pieces.len() implies (#[trigger] pieces[b]).len() > 0
        && transcript::transcript_bytes(pieces[b]).len() <= per_datagram_budget by {
        transcript::lemma_entries_bytes_len(pieces[b]);
        wire::lemma_be_bytes_len(pieces[b].len(), 4);
    }
    assert forall|b: int| 0 < b < pieces.len() implies transcript::transcript_bytes(
        pieces[b - 1].push((#[trigger] pieces[b])[0]),
    ).len() > per_datagram_budget by {
        let more = pieces[b - 1].push(pieces[b][0]);
        transcript::lemma_entries_bytes_len(more);
        wire::lemma_be_bytes_len(more.len(), 4);
        assert(more.drop_last() =~= pieces[b - 1]);
    }
}

/// Law: the entries of buckets are those of each bucket in turn, and their bytes add up.
pub proof fn buckets_and_bytes_add_up(
    buckets: Seq<Seq<(u64, Seq<u8>)>>,
    bucket: Seq<(u64, Seq<u8>)>,
    datagrams: Seq<Seq<u8>>,
    datagram: Seq<u8>,
)
    ensures
        unpacked(Seq::empty()) == Seq::<(u64, Seq<u8>)>::empty(),
        unpacked(buckets.push(bucket)) == unpacked(buckets) + bucket,
        total_len(Seq::empty()) == 0,
        total_len(datagrams.push(datagram)) == total_len(datagrams) + datagram.len(),
{
    assert(buckets.push(bucket).drop_last() =~= buckets);
    assert(datagrams.push(datagram).drop_last() =~= datagrams);
}

/// Law: buckets and datagrams are viewed one for one and in their order.
pub proof fn pieces_are_viewed_one_by_one(
    buckets: Seq<Vec<(u64, Vec<u8>)>>,
    bucket: Vec<(u64, Vec<u8>)>,
    datagrams: Seq<Vec<u8>>,
    datagram: Vec<u8>,
)
    ensures
        buckets_view(Seq::empty()).len() == 0,
        buckets_view(buckets.push(bucket)) == buckets_view(buckets).push(
            wire::window_view(bucket@),
        ),
        bytes_view(Seq::empty()).len() == 0,
        bytes_view(datagrams.push(datagram)) == bytes_view(datagrams).push(datagram@),
{
    assert(buckets_view(buckets.push(bucket)) =~= buckets_view(buckets).push(
        wire::window_view(bucket@),
    ));
    assert(bytes_view(datagrams.push(datagram)) =~= bytes_view(datagrams).push(datagram@));
}

/// Law: a receive loop counts the packets that it read and nothing else. It returns once its
/// buffers are full, or once the socket has no more to give and it has something to return; only a
/// loop with nothing to return waits or fails. A preamble never ends it.
pub proof fn receive_loop_returns_what_it_read(filled: nat, capacity: nat, event: SocketEvent)
    requires
        filled < capacity,
    ensures
        ({
            let (now, action) = recv_next(filled, capacity, event);
            let idle = event is NotReady || event is WouldBlock;
            let failed = event is PollFailed || event is ReadFailed;
            &&& event is PacketRead ==> now == filled + 1
            &&& event !is PacketRead ==> now == filled
            &&& action is Finish <==> now == capacity || now > 0 && (idle || failed)
            &&& action is Fail <==> failed && now == 0
            &&& action is Pend <==> event is NotReady && now == 0
            &&& action is Read <==> event is Readable
            &&& action is Poll <==> event is PreambleRead || event is PacketRead && now < capacity
                || event is WouldBlock && now == 0
        }),
{
}

/// Law: of all prefixes that can be sent, `admitted` is the longest.
pub proof fn admitted_is_longest(
    window: Seq<(u64, Seq<u8>)>,
    total_budget: nat,
    per_datagram_budget: nat,
)
    ensures
        ({
            let k = admitted(window, total_budget, per_datagram_budget);
            &&& k <= window.len()
            &&& k > 0 ==> sendable(window.take(k as int), total_budget, per_datagram_budget)
            &&& forall|j: int|
                k < j <= window.len() ==> !#[trigger] sendable(
                    window.take(j),
                    total_budget,
                    per_datagram_budget,
                )
        }),
    decreases window.len(),
{
    assert(window.take(window.len() as int) =~= window);
    if window.len() > 0 && !sendable(window, total_budget, per_datagram_budget) {
        let shorter = window.drop_last();
        admitted_is_longest(shorter, total_budget, per_datagram_budget);
        let k = admitted(window, total_budget, per_datagram_budget);
        assert(shorter.take(k as int) =~= window.take(k as int));
        assert forall|j: int| k < j <= window.len() implies !#[trigger] sendable(
            window.take(j),
            total_budget,
            per_datagram_budget,
        ) by {
            if j < window.len() {
                assert(shorter.take(j) =~= window.take(j));
            }
        }
    }
}

/// A prefix of what can be sent can be sent.
proof fn lemma_sendable_prefix(
    window: Seq<(u64, Seq<u8>)>,
    k: int,
    total_budget: nat,
    per_datagram_budget: nat,
)
    requires
        0 <= k <= window.len(),
        sendable(window, total_budget, per_datagram_budget),
    ensures
        sendable(window.take(k), total_budget, per_datagram_budget),
{
    transcript::lemma_entries_len_mono(window, k, window.len() as int);
    assert(window.take(window.len() as int) =~= window);
    assert forall|i: int| 0 <= i < k implies entry_fits(
        #[trigger] window.take(k)[i],
        per_datagram_budget,
    ) by {
        assert(window.take(k)[i] == window[i]);
    }
}

/// The prefix of length `k` is the longest that can be sent, if it can be sent and one entry more
/// can not.
proof fn lemma_admitted_is(
    window: Seq<(u64, Seq<u8>)>,
    total_budget: nat,
    per_datagram_budget: nat,
    k: int,
)
    requires
        0 <= k <= window.len(),
        sendable(window.take(k), total_budget, per_datagram_budget),
        k == window.len() || !sendable(window.take(k + 1), total_budget, per_datagram_budget),
    ensures
        admitted(window, total_budget, per_datagram_budget) == k,
{
    let a = admitted(window, total_budget, per_datagram_budget) as int;
    admitted_is_longest(window, total_budget, per_datagram_budget);
    if a > k {
        lemma_sendable_prefix(window.take(a), k + 1, total_budget, per_datagram_budget);
        assert(window.take(a).take(k + 1) =~= window.take(k + 1));
    }
}

/// Law: the buckets hold the entries of the window, all of them and in their order; none is empty;
/// and each stays within the budget, if each entry alone does.
pub proof fn packing_keeps_entries(window: Seq<(u64, Seq<u8>)>, per_datagram_budget: nat)
    requires
        forall|i: int|
            0 <= i < window.len() ==> entry_fits(#[trigger] window[i], per_datagram_budget),
    ensures
        unpacked(packed(window, per_datagram_budget)) == window,
        forall|b: int|
            0 <= b < packed(window, per_datagram_budget).len() ==> {
                let bucket = #[trigger] packed(window, per_datagram_budget)[b];
                &&& bucket.len() > 0
                &&& transcript::TRANSCRIPT_HEADER_LEN + transcript::entries_len(bucket)
                    <= per_datagram_budget
            },
    decreases window.len(),
{
    let all = packed(window, per_datagram_budget);
    if window.len() > 0 {
        let shorter = window.drop_last();
        let buckets = packed(shorter, per_datagram_budget);
        let entry = window.last();
        assert forall|i: int| 0 <= i < shorter.len() implies entry_fits(
            #[trigger] shorter[i],
            per_datagram_budget,
        ) by {
            assert(shorter[i] == window[i]);
        }
        packing_keeps_entries(shorter, per_datagram_budget);
        assert(entry_fits(window[window.len() - 1], per_datagram_budget));
        assert(shorter.push(entry) =~= window);
        if buckets.len() > 0 && transcript::TRANSCRIPT_HEADER_LEN + transcript::entries_len(
            buckets.last(),
        ) + transcript::entry_len(entry) <= per_datagram_budget {
            let grown = buckets.last().push(entry);
            assert(all.drop_last() =~= buckets.drop_last());
            assert(grown.drop_last() =~= buckets.last());
            assert(unpacked(buckets.drop_last()) + grown =~= (unpacked(buckets.drop_last())
                + buckets.last()).push(entry));
            assert forall|b: int| 0 <= b < all.len() implies ({
                let bucket = #[trigger] all[b];
                &&& bucket.len() > 0
                &&& transcript::TRANSCRIPT_HEADER_LEN + transcript::entries_len(bucket)
                    <= per_datagram_budget
            }) by {
                if b < buckets.len() - 1 {
                    assert(all[b] == buckets[b]);
                }
            }
        } else {
            let fresh = seq![entry];
            assert(all.drop_last() =~= buckets);
            assert(fresh.drop_last() =~= Seq::empty());
            assert(transcript::entries_len(fresh.drop_last()) == 0);
            assert(transcript::entries_len(fresh) == transcript::entry_len(entry));
            assert(unpacked(buckets) + fresh =~= unpacked(buckets).push(entry));
            assert forall|b: int| 0 <= b < all.len() implies ({
                let bucket = #[trigger] all[b];
                &&& bucket.len() > 0
                &&& transcript::TRANSCRIPT_HEADER_LEN + transcript::entries_len(bucket)
                    <= per_datagram_budget
            }) by {
                if b < buckets.len() {
                    assert(all[b] == buckets[b]);
                }
            }
        }
    }
}

/// Law: a bucket is closed only where the next entry does not fit in it.
pub proof fn buckets_are_full(window: Seq<(u64, Seq<u8>)>, per_datagram_budget: nat)
    ensures
        forall|b: int|
            0 <= b < packed(window, per_datagram_budget).len() ==> (
            #[trigger] packed(window, per_datagram_budget)[b]).len() > 0,
        forall|b: int|
            0 < b < packed(window, per_datagram_budget).len() ==> {
                let full = packed(window, per_datagram_budget)[b - 1];
                let next = #[trigger] packed(window, per_datagram_budget)[b];
                transcript::TRANSCRIPT_HEADER_LEN + transcript::entries_len(full)
                    + transcript::entry_len(next[0]) > per_datagram_budget
            },
    decreases window.len(),
{
    let all = packed(window, per_datagram_budget);
    if window.len() > 0 {
        buckets_are_full(window.drop_last(), per_datagram_budget);
        let buckets = packed(window.drop_last(), per_datagram_budget);
        assert forall|b: int| 0 < b < all.len() implies ({
            let full = all[b - 1];
            let next = #[trigger] all[b];
            transcript::TRANSCRIPT_HEADER_LEN + transcript::entries_len(full)
                + transcript::entry_len(next[0]) > per_datagram_budget
        }) by {
            assert(all[b - 1] == buckets[b - 1]);
            if b < buckets.len() {
                assert(all[b][0] == buckets[b][0]);
            }
        }
    }
}

/// A bucket that fits in a datagram can be written without loss.
proof fn lemma_bucket_wire_sized(bucket: Seq<(u64, Seq<u8>)>)
    requires
        transcript::entries_len(bucket) < 0x1_0000_0000,
    ensures
        transcript::wire_sized(bucket),
    decreases bucket.len(),
{
    if bucket.len() > 0 {
        lemma_bucket_wire_sized(bucket.drop_last());
        lemma_len_at_most_entries_len(bucket);
        assert forall|i: int| 0 <= i < bucket.len() implies (#[trigger] bucket[i]).1.len()
            < 0x1_0000_0000 by {
            if i < bucket.len() - 1 {
                assert(bucket.drop_last()[i] == bucket[i]);
            }
        }
    }
}

/// An entry takes at least one byte.
proof fn lemma_len_at_most_entries_len(bucket: Seq<(u64, Seq<u8>)>)
    ensures
        bucket.len() <= transcript::entries_len(bucket),
    decreases bucket.len(),
{
    if bucket.len() > 0 {
        lemma_len_at_most_entries_len(bucket.drop_last());
    }
}

/// Law: each preamble datagram keeps the size limit, is told apart from the packets of the
/// connection, and parses to a piece of the window; the pieces together are the longest prefix of
/// the window that can be sent.
pub proof fn datagrams_carry_window(window: Seq<(u64, Seq<u8>)>, total_budget: nat)
    ensures
        ({
            let per = (MAX_DATAGRAM_PAYLOAD - 1) as nat;
            let buckets = bucketed(window, total_budget, per);
            let datagrams = datagrams_of(window, total_budget);
            &&& datagrams.len() == buckets.len()
            &&& unpacked(buckets) == window.take(admitted(window, total_budget, per) as int)
            &&& forall|b: int|
                0 <= b < datagrams.len() ==> {
                    &&& (#[trigger] datagrams[b]).len() <= MAX_DATAGRAM_PAYLOAD
                    &&& preamble_parsed(datagrams[b]) == Some(
                        Ok::<Seq<(u64, Seq<u8>)>, TranscriptDecodeError>(buckets[b]),
                    )
                }
        }),
{
    let per = (MAX_DATAGRAM_PAYLOAD - 1) as nat;
    let prefix = window.take(admitted(window, total_budget, per) as int);
    let buckets = bucketed(window, total_budget, per);
    let datagrams = datagrams_of(window, total_budget);
    admitted_is_longest(window, total_budget, per);
    packing_keeps_entries(prefix, per);
    assert forall|b: int| 0 <= b < datagrams.len() implies {
        &&& (#[trigger] datagrams[b]).len() <= MAX_DATAGRAM_PAYLOAD
        &&& preamble_parsed(datagrams[b]) == Some(
            Ok::<Seq<(u64, Seq<u8>)>, TranscriptDecodeError>(buckets[b]),
        )
    } by {
        let bucket = packed(prefix, per)[b];
        lemma_bucket_wire_sized(bucket);
        transcript::lemma_entries_bytes_len(bucket);
        wire::lemma_be_bytes_len(bucket.len(), 4);
        transcript::decode_inverts_transcript(bucket, Seq::empty());
        let blob = transcript::transcript_bytes(bucket);
        assert(blob + Seq::<u8>::empty() =~= blob);
        assert(datagrams[b].skip(1) =~= blob);
    }
}

/// Law: a receiver that replays the buckets one after the other, each to its end, has replayed the
/// window that they were made of. `groups` and `epochs` are its states before, between and after.
pub proof fn buckets_replay_the_window<G: ExportSecret>(
    buckets: Seq<Seq<(u64, Seq<u8>)>>,
    groups: Seq<G>,
    epochs: Seq<u64>,
)
    requires
        groups.len() == buckets.len() + 1,
        epochs.len() == buckets.len() + 1,
        forall|b: int, n: int|
            0 <= b < buckets.len() && n == b + 1 ==> replay::replays(
                #[trigger] groups[b],
                epochs[b],
                buckets[b],
                #[trigger] groups[n],
                epochs[n],
                replay::Replay::Complete,
            ),
    ensures
        replay::replays(
            groups[0],
            epochs[0],
            unpacked(buckets),
            groups.last(),
            epochs.last(),
            replay::Replay::Complete,
        ),
    decreases buckets.len(),
{
    if buckets.len() > 0 {
        let m = buckets.len() - 1;
        let (g, e) = (groups.drop_last(), epochs.drop_last());
        assert forall|b: int, n: int|
            0 <= b < buckets.drop_last().len() && n == b + 1 implies replay::replays(
            #[trigger] g[b],
            e[b],
            buckets.drop_last()[b],
            #[trigger] g[n],
            e[n],
            replay::Replay::Complete,
        ) by {
            assert(g[b] == groups[b] && g[n] == groups[n]);
        }
        buckets_replay_the_window(buckets.drop_last(), g, e);
        assert(replay::replays(
            groups[m],
            epochs[m],
            buckets[m],
            groups[m + 1],
            epochs[m + 1],
            replay::Replay::Complete,
        ));
        replay::replay_in_pieces(
            groups[0],
            epochs[0],
            unpacked(buckets.drop_last()),
            groups[m],
            epochs[m],
            buckets.last(),
            groups[m + 1],
            epochs[m + 1],
            replay::Replay::Complete,
        );
    }
}

/// Law: no packet of a connection whose peers leave the fixed bit set is taken for a preamble.
pub proof fn packets_are_not_preambles(packet: Seq<u8>)
    requires
        packet.len() > 0,
        packet[0] & 0x40 != 0 || packet[0] & 0x80 != 0,
    ensures
        preamble_parsed(packet) is None,
{
    let first = packet[0];
    assert(first & 0x40 != 0 || first & 0x80 != 0 ==> first >= 0x40) by (bit_vector);
}

/// Whether a datagram with this first byte is a preamble.
pub fn is_preamble_marker(first_byte: u8) -> (yes: bool)
    ensures
        yes == (first_byte < 0x40),
{
    assert((first_byte & 0xC0 == 0) == (first_byte < 0x40)) by (bit_vector);
    first_byte & 0xC0 == 0
}

/// How many bytes an entry takes on the wire.
pub fn entry_wire_len(entry: &(u64, Vec<u8>)) -> (len: usize)
    requires
        transcript::ENTRY_HEADER_LEN + entry.1@.len() <= usize::MAX,
    ensures
        len == transcript::entry_len((entry.0, entry.1@)),
{
    transcript::ENTRY_HEADER_LEN + entry.1.len()
}

/// Cuts `window` to what the budgets admit, and packs that into buckets, one for each datagram.
pub fn bucket_window(
    window: &[(u64, Vec<u8>)],
    total_budget: usize,
    per_datagram_budget: usize,
) -> (buckets: Vec<Vec<(u64, Vec<u8>)>>)
    ensures
        buckets_view(buckets@) == bucketed(
            wire::window_view(window@),
            total_budget as nat,
            per_datagram_budget as nat,
        ),
{
    let ghost entries = wire::window_view(window@);
    let ghost per = per_datagram_budget as nat;
    let mut buckets: Vec<Vec<(u64, Vec<u8>)>> = Vec::new();
    let mut current: Vec<(u64, Vec<u8>)> = Vec::new();
    if per_datagram_budget < transcript::TRANSCRIPT_HEADER_LEN {
        proof {
            assert(entries.take(0) =~= Seq::empty());
            if entries.len() > 0 {
                assert(!entry_fits(entries.take(1)[0], per));
            }
            lemma_admitted_is(entries, total_budget as nat, per, 0);
            assert(buckets_view(buckets@) =~= packed(entries.take(0), per));
        }
        return buckets;
    }
    let capacity: usize = per_datagram_budget - transcript::TRANSCRIPT_HEADER_LEN;
    let mut current_room: usize = capacity;
    let mut total_room: usize = total_budget;
    let mut i: usize = 0;
    proof {
        assert(entries.take(0) =~= Seq::empty());
        assert(buckets_view(buckets@) =~= packed(entries.take(0), per));
        assert(wire::window_view(current@) =~= Seq::empty());
    }
    while i < window.len()
        invariant
            entries == wire::window_view(window@),
            per == per_datagram_budget,
            i <= window@.len(),
            capacity == per_datagram_budget - transcript::TRANSCRIPT_HEADER_LEN,
            total_room == total_budget - transcript::entries_len(entries.take(i as int)),
            current_room == capacity - transcript::entries_len(wire::window_view(current@)),
            sendable(entries.take(i as int), total_budget as nat, per),
            current@.len() == 0 ==> i == 0,
            current@.len() == 0 ==> buckets_view(buckets@) == packed(entries.take(i as int), per),
            current@.len() > 0 ==> buckets_view(buckets@).push(wire::window_view(current@))
                == packed(entries.take(i as int), per),
        ensures
            i <= window@.len(),
            sendable(entries.take(i as int), total_budget as nat, per),
            i == window@.len() || !sendable(entries.take(i + 1), total_budget as nat, per),
        decreases window@.len() - i,
    {
        let ghost entry = entries[i as int];
        let ghost head = entries.take(i as int);
        let ghost more = entries.take(i + 1);
        proof {
            assert(entry == (window@[i as int].0, window@[i as int].1@));
            assert(more.drop_last() =~= head);
            assert(more.last() == entry);
        }
        let len: usize = window[i].1.len();
        if len > capacity || transcript::ENTRY_HEADER_LEN > capacity - len {
            proof {
                assert(!entry_fits(more[i as int], per));
            }
            break;
        }
        let entry_len: usize = entry_wire_len(&window[i]);
        if entry_len > total_room {
            break;
        }
        let commit = wire::copy_bytes(window[i].1.as_slice());
        let ghost old_current = wire::window_view(current@);
        let ghost old_buckets = buckets_view(buckets@);
        if entry_len > current_room {
            proof {
                if current@.len() == 0 {
                    assert(wire::window_view(current@) =~= Seq::empty());
                }
            }
            buckets.push(current);
            current = Vec::new();
            current_room = capacity;
            proof {
                assert(buckets_view(buckets@) =~= old_buckets.push(old_current));
                assert(wire::window_view(current@) =~= Seq::empty());
            }
        }
        let ghost bucket = wire::window_view(current@);
        current.push((window[i].0, commit));
        current_room = current_room - entry_len;
        total_room = total_room - entry_len;
        proof {
            assert(wire::window_view(current@) =~= bucket.push(entry));
            assert(bucket.push(entry).drop_last() =~= bucket);
            assert(transcript::entries_len(bucket.push(entry)) == transcript::entries_len(bucket)
                + transcript::entry_len(entry));
            assert forall|j: int| 0 <= j < more.len() implies entry_fits(
                #[trigger] more[j],
                per,
            ) by {
                if j < i {
                    assert(more[j] == head[j]);
                }
            }
            let packed_head = packed(head, per);
            if bucket.len() > 0 {
                assert(packed_head.last() == bucket);
                assert(packed_head.drop_last() =~= buckets_view(buckets@));
            } else {
                assert(packed_head =~= buckets_view(buckets@));
                assert(bucket.push(entry) =~= seq![entry]);
            }
            assert(buckets_view(buckets@).push(wire::window_view(current@)) =~= packed(more, per));
        }
        i = i + 1;
    }
    proof {
        lemma_admitted_is(entries, total_budget as nat, per, i as int);
    }
    let ghost closed = buckets_view(buckets@);
    let ghost last = wire::window_view(current@);
    if current.len() > 0 {
        buckets.push(current);
        assert(buckets_view(buckets@) =~= closed.push(last));
    }
    buckets
}

/// The datagrams that carry `window` to the peer, cut to a total budget for its entries.
pub fn preamble_datagrams(window: &[(u64, Vec<u8>)], total_budget: usize) -> (datagrams: Vec<
    Vec<u8>,
>)
    ensures
        bytes_view(datagrams@) == datagrams_of(wire::window_view(window@), total_budget as nat),
{
    let ghost entries = wire::window_view(window@);
    let ghost per = (MAX_DATAGRAM_PAYLOAD - 1) as nat;
    let ghost wanted = datagrams_of(entries, total_budget as nat);
    let buckets = bucket_window(window, total_budget, MAX_DATAGRAM_PAYLOAD - 1);
    let ghost views = buckets_view(buckets@);
    proof {
        let prefix = entries.take(admitted(entries, total_budget as nat, per) as int);
        admitted_is_longest(entries, total_budget as nat, per);
        packing_keeps_entries(prefix, per);
    }
    let mut datagrams: Vec<Vec<u8>> = Vec::new();
    let mut b: usize = 0;
    while b < buckets.len()
        invariant
            b <= buckets@.len(),
            views == buckets_view(buckets@),
            wanted.len() == views.len(),
            forall|j: int|
                0 <= j < wanted.len() ==> #[trigger] wanted[j] == datagram_bytes(views[j]),
            forall|j: int|
                0 <= j < views.len() ==> {
                    let bucket = #[trigger] views[j];
                    &&& bucket.len() > 0
                    &&& transcript::TRANSCRIPT_HEADER_LEN + transcript::entries_len(bucket)
                        <= MAX_DATAGRAM_PAYLOAD - 1
                },
            bytes_view(datagrams@) == wanted.take(b as int),
        decreases buckets@.len() - b,
    {
        let ghost bucket = views[b as int];
        let ghost before = bytes_view(datagrams@);
        let blob = encode_transcript(buckets[b].as_slice(), usize::MAX);
        proof {
            assert(bucket == wire::window_view(buckets@[b as int]@));
            assert(bucket.take(bucket.len() as int) =~= bucket);
            transcript::lemma_fitting_is(
                bucket,
                usize::MAX - transcript::TRANSCRIPT_HEADER_LEN,
                bucket.len() as int,
            );
            wire::lemma_be_bytes_len(bucket.len(), 4);
            assert(blob@ == transcript::transcript_bytes(bucket));
        }
        let mut datagram: Vec<u8> = Vec::new();
        datagram.push(PREAMBLE_MARKER);
        datagram.extend_from_slice(blob.as_slice());
        proof {
            assert(datagram@ =~= datagram_bytes(bucket));
            assert(wanted[b as int] == datagram_bytes(views[b as int]));
        }
        datagrams.push(datagram);
        proof {
            assert(bytes_view(datagrams@) =~= before.push(datagram_bytes(bucket)));
            assert(wanted.take(b + 1) =~= wanted.take(b as int).push(wanted[b as int]));
        }
        b = b + 1;
    }
    proof {
        assert(wanted.take(wanted.len() as int) =~= wanted);
    }
    datagrams
}

/// How many bytes the datagrams have in all, or the largest `u64` where that is less.
pub fn preamble_len(datagrams: &[Vec<u8>]) -> (total: u64)
    ensures
        total == (if total_len(bytes_view(datagrams@)) <= u64::MAX {
            total_len(bytes_view(datagrams@))
        } else {
            u64::MAX as nat
        }),
{
    let ghost all = bytes_view(datagrams@);
    let mut total: u64 = 0;
    let mut i: usize = 0;
    proof {
        assert(all.take(0) =~= Seq::empty());
    }
    while i < datagrams.len()
        invariant
            all == bytes_view(datagrams@),
            i <= datagrams@.len(),
            total == (if total_len(all.take(i as int)) <= u64::MAX {
                total_len(all.take(i as int))
            } else {
                u64::MAX as nat
            }),
        decreases datagrams@.len() - i,
    {
        proof {
            assert(all.take(i + 1).drop_last() =~= all.take(i as int));
            assert(all.take(i + 1).last() == datagrams@[i as int]@);
        }
        total = total.saturating_add(datagrams[i].len() as u64);
        i = i + 1;
    }
    proof {
        assert(all.take(all.len() as int) =~= all);
    }
    total
}

/// Parses a datagram that may be a preamble. Returns nothing for one that is not.
pub fn parse_preamble(datagram: &[u8]) -> (r: Option<
    Result<Vec<(u64, Vec<u8>)>, TranscriptDecodeError>,
>)
    ensures
        match r {
            None => preamble_parsed(datagram@) is None,
            Some(Err(e)) => preamble_parsed(datagram@) == Some(
                Err::<Seq<(u64, Seq<u8>)>, TranscriptDecodeError>(e),
            ),
            Some(Ok(window)) => preamble_parsed(datagram@) == Some(
                Ok::<Seq<(u64, Seq<u8>)>, TranscriptDecodeError>(wire::window_view(window@)),
            ),
        },
{
    if datagram.len() == 0 || !is_preamble_marker(datagram[0]) {
        return None;
    }
    let payload = vstd::slice::slice_subrange(datagram, 1, datagram.len());
    assert(payload@ =~= datagram@.skip(1));
    Some(decode_transcript(payload))
}

/// Decides what a preamble with these bytes behind the marker asks for.
pub fn handle_preamble_datagram(payload: &[u8], has_sink: bool) -> (action: PreambleAction)
    ensures
        asks_for(action, payload@, has_sink),
{
    match decode_transcript(payload) {
        Ok(window) => if has_sink {
            PreambleAction::Deliver(window)
        } else {
            PreambleAction::NoSink(window.len())
        },
        Err(e) => PreambleAction::Malformed(e),
    }
}

/// Tells a preamble from a packet of the connection, and decides what the preamble asks for.
pub fn receive_datagram(datagram: &[u8], has_sink: bool) -> (r: Received)
    ensures
        match r {
            Received::Packet => preamble_parsed(datagram@) is None,
            Received::Preamble(action) => preamble_parsed(datagram@) is Some && asks_for(
                action,
                datagram@.skip(1),
                has_sink,
            ),
        },
        received_as(r, datagram@, has_sink),
{
    if datagram.len() == 0 || !is_preamble_marker(datagram[0]) {
        return Received::Packet;
    }
    let payload = vstd::slice::slice_subrange(datagram, 1, datagram.len());
    assert(payload@ =~= datagram@.skip(1));
    Received::Preamble(handle_preamble_datagram(payload, has_sink))
}

/// Whether an event ends a receive loop once it has something to return.
pub open spec fn ends_batch(event: SocketEvent) -> bool {
    match event {
        SocketEvent::NotReady | SocketEvent::PollFailed | SocketEvent::WouldBlock
        | SocketEvent::ReadFailed => true,
        SocketEvent::Readable | SocketEvent::PreambleRead | SocketEvent::PacketRead => false,
    }
}

/// How a receive loop with room for `capacity` datagrams starts.
pub fn recv_start(capacity: usize) -> (action: RecvAction)
    ensures
        action == (if capacity == 0 {
            RecvAction::Finish
        } else {
            RecvAction::Poll
        }),
{
    if capacity == 0 {
        RecvAction::Finish
    } else {
        RecvAction::Poll
    }
}

/// Decides how a receive loop goes on that has filled `filled` of `capacity` receive buffers.
/// Returns how many are filled now. A preamble fills none, and a failure is reported only by a
/// loop that has nothing to return.
pub fn recv_step(filled: usize, capacity: usize, event: SocketEvent) -> (r: (usize, RecvAction))
    requires
        filled < capacity,
    ensures
        r.0 == filled + (if event == SocketEvent::PacketRead {
            1int
        } else {
            0
        }),
        r.1 == (if ends_batch(event) && filled > 0 {
            RecvAction::Finish
        } else {
            match event {
                SocketEvent::Readable => RecvAction::Read,
                SocketEvent::NotReady => RecvAction::Pend,
                SocketEvent::PollFailed | SocketEvent::ReadFailed => RecvAction::Fail,
                SocketEvent::PreambleRead | SocketEvent::WouldBlock => RecvAction::Poll,
                SocketEvent::PacketRead => if filled + 1 == capacity {
                    RecvAction::Finish
                } else {
                    RecvAction::Poll
                },
            }
        }),
        (r.0 as nat, r.1) == recv_next(filled as nat, capacity as nat, event),
{
    match event {
        SocketEvent::Readable => (filled, RecvAction::Read),
        SocketEvent::PreambleRead => (filled, RecvAction::Poll),
        SocketEvent::PacketRead => if filled + 1 == capacity {
            (filled + 1, RecvAction::Finish)
        } else {
            (filled + 1, RecvAction::Poll)
        },
        SocketEvent::NotReady => if filled > 0 {
            (filled, RecvAction::Finish)
        } else {
            (filled, RecvAction::Pend)
        },
        SocketEvent::WouldBlock => if filled > 0 {
            (filled, RecvAction::Finish)
        } else {
            (filled, RecvAction::Poll)
        },
        SocketEvent::PollFailed | SocketEvent::ReadFailed => if filled > 0 {
            (filled, RecvAction::Finish)
        } else {
            (filled, RecvAction::Fail)
        },
    }
}

} // verus!
