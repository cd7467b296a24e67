//! The transcript: the wire encoding of a window of `(epoch, commit)` entries.
//!
//! A transcript is the magic `QMT1`, the number of entries as four bytes, and then for each entry
//! its epoch as eight bytes, the length of its commit as four bytes, and the commit. All integers
//! are big-endian.

use vstd::prelude::*;
use crate::params;
use crate::wire;

verus! {

/// The first four bytes of a transcript, `QMT1`.
pub const MAGIC: [u8; 4] = [0x51, 0x4d, 0x54, 0x31];

/// Bytes that a transcript takes before its first entry.
pub const TRANSCRIPT_HEADER_LEN: usize = 8;

/// Bytes that an entry takes beside its commit.
pub const ENTRY_HEADER_LEN: usize = 12;

/// Identifier of the transport parameter that carries a transcript in a handshake.
pub const TRANSCRIPT_PARAM: u64 = 0x514d;

/// Why bytes were refused as a transcript.
#[derive(Debug, PartialEq, Eq, Structural)]
pub enum TranscriptDecodeError {
    /// The bytes end before the transcript does.
    Truncated,
    /// The bytes do not start with the magic.
    BadMagic,
}

impl TranscriptDecodeError {
    /// The error in words.
    pub fn message(&self) -> (text: &'static str)
        ensures
            text@ == (match *self {
                TranscriptDecodeError::Truncated => "transcript blob is truncated"@,
                TranscriptDecodeError::BadMagic => "transcript magic bytes did not match"@,
            }),
    {
        match self {
            TranscriptDecodeError::Truncated => "transcript blob is truncated",
            TranscriptDecodeError::BadMagic => "transcript magic bytes did not match",
        }
    }
}

/// How many bytes an entry takes on the wire.
pub open spec fn entry_len(entry: (u64, Seq<u8>)) -> nat {
    ENTRY_HEADER_LEN as nat + entry.1.len()
}

/// How many bytes the entries of `window` take together.
pub open spec fn entries_len(window: Seq<(u64, Seq<u8>)>) -> nat
    decreases window.len(),
{
    if window.len() == 0 {
        0
    } else {
        entries_len(window.drop_last()) + entry_len(window.last())
    }
}

/// An entry on the wire.
pub open spec fn entry_bytes(entry: (u64, Seq<u8>)) -> Seq<u8> {
    wire::be_bytes(entry.0 as nat, 8) + wire::be_bytes(entry.1.len(), 4) + entry.1
}

/// The entries of `window` on the wire, one behind the other.
pub open spec fn entries_bytes(window: Seq<(u64, Seq<u8>)>) -> Seq<u8>
    decreases window.len(),
{
    if window.len() == 0 {
        Seq::empty()
    } else {
        entries_bytes(window.drop_last()) + entry_bytes(window.last())
    }
}

/// The transcript of `window`.
pub open spec fn transcript_bytes(window: Seq<(u64, Seq<u8>)>) -> Seq<u8> {
    MAGIC@ + wire::be_bytes(window.len(), 4) + entries_bytes(window)
}

/// The length of the longest prefix of `window` whose entries take at most `budget` bytes.
pub open spec fn fitting(window: Seq<(u64, Seq<u8>)>, budget: int) -> nat
    decreases window.len(),
{
    if window.len() == 0 {
        0
    } else if entries_len(window) <= budget {
        window.len()
    } else {
        fitting(window.drop_last(), budget)
    }
}

/// What `encode_transcript` returns: the transcript of the longest prefix of `window` that fits
/// in `max_bytes`, or nothing where not even one entry fits.
pub open spec fn encoded(window: Seq<(u64, Seq<u8>)>, max_bytes: nat) -> Seq<u8> {
    let k = fitting(window, max_bytes - TRANSCRIPT_HEADER_LEN);
    if k == 0 {
        Seq::empty()
    } else {
        transcript_bytes(window.take(k as int))
    }
}

/// The first `count` entries that `bytes` holds, or `None` where the bytes end before them.
pub open spec fn decoded_entries(bytes: Seq<u8>, count: nat) -> Option<Seq<(u64, Seq<u8>)>>
    decreases count,
{
    if count == 0 {
        Some(Seq::empty())
    } else if bytes.len() < ENTRY_HEADER_LEN {
        None
    } else {
        let len = wire::be_nat(bytes.subrange(8, 12)) as int;
        if bytes.len() < ENTRY_HEADER_LEN + len {
            None
        } else {
            let entry = (
                wire::be_nat(bytes.subrange(0, 8)) as u64,
                bytes.subrange(12, 12 + len),
            );
            match decoded_entries(bytes.skip(12 + len), (count - 1) as nat) {
                None => None,
                Some(rest) => Some(seq![entry] + rest),
            }
        }
    }
}

/// What `decode_transcript` returns. Bytes behind the last entry are ignored.
pub open spec fn decoded(bytes: Seq<u8>) -> Result<Seq<(u64, Seq<u8>)>, TranscriptDecodeError> {
    if bytes.len() < TRANSCRIPT_HEADER_LEN {
        Err(TranscriptDecodeError::Truncated)
    } else if bytes.subrange(0, 4) != MAGIC@ {
        Err(TranscriptDecodeError::BadMagic)
    } else {
        match decoded_entries(bytes.skip(8), wire::be_nat(bytes.subrange(4, 8))) {
            None => Err(TranscriptDecodeError::Truncated),
            Some(window) => Ok(window),
        }
    }
}

/// Whether a window can be written without loss: its length and the lengths of its commits fit in
/// the four bytes that the wire has for each.
pub open spec fn wire_sized(window: Seq<(u64, Seq<u8>)>) -> bool {
    &&& window.len() < 0x1_0000_0000
    &&& forall|i: int| 0 <= i < window.len() ==> (#[trigger] window[i]).1.len() < 0x1_0000_0000
}

/// The entries of a longer prefix take at least as many bytes.
pub proof fn lemma_entries_len_mono(window: Seq<(u64, Seq<u8>)>, i: int, j: int)
    requires
        0 <= i <= j <= window.len(),
    ensures
        entries_len(window.take(i)) <= entries_len(window.take(j)),
    decreases j - i,
{
    if i < j {
        lemma_entries_len_mono(window, i, j - 1);
        assert(window.take(j).drop_last() =~= window.take(j - 1));
    }
}

/// The prefix of length `k` is the longest that fits, if it fits and one entry more does not.
pub proof fn lemma_fitting_is(window: Seq<(u64, Seq<u8>)>, budget: int, k: int)
    requires
        0 <= k <= window.len(),
        k == 0 || entries_len(window.take(k)) <= budget,
        k == window.len() || entries_len(window.take(k + 1)) > budget,
    ensures
        fitting(window, budget) == k,
    decreases window.len(),
{
    if window.len() > 0 {
        assert(window.take(window.len() as int) =~= window);
        if k < window.len() {
            lemma_entries_len_mono(window, k + 1, window.len() as int);
            let shorter = window.drop_last();
            assert(shorter.take(k) =~= window.take(k));
            if k < shorter.len() {
                assert(shorter.take(k + 1) =~= window.take(k + 1));
            }
            lemma_fitting_is(shorter, budget, k);
        }
    }
}

/// Law: of all prefixes that fit in the budget, `fitting` is the longest.
pub proof fn fitting_is_longest(window: Seq<(u64, Seq<u8>)>, budget: int)
    ensures
        fitting(window, budget) <= window.len(),
        fitting(window, budget) > 0 ==> entries_len(window.take(fitting(window, budget) as int))
            <= budget,
        forall|j: int|
            fitting(window, budget) < j <= window.len() ==> #[trigger] entries_len(window.take(j))
                > budget,
    decreases window.len(),
{
    if window.len() > 0 {
        assert(window.take(window.len() as int) =~= window);
        if entries_len(window) > budget {
            let shorter = window.drop_last();
            fitting_is_longest(shorter, budget);
            let k = fitting(window, budget);
            assert(shorter.take(k as int) =~= window.take(k as int));
            assert forall|j: int| k < j <= window.len() implies #[trigger] entries_len(
                window.take(j),
            ) > budget by {
                if j < window.len() {
                    assert(shorter.take(j) =~= window.take(j));
                }
            }
        }
    }
}

/// The entries take as many bytes as `entries_len` says.
pub proof fn lemma_entries_bytes_len(window: Seq<(u64, Seq<u8>)>)
    ensures
        entries_bytes(window).len() == entries_len(window),
    decreases window.len(),
{
    if window.len() > 0 {
        lemma_entries_bytes_len(window.drop_last());
        wire::lemma_be_bytes_len(window.last().0 as nat, 8);
        wire::lemma_be_bytes_len(window.last().1.len(), 4);
    }
}

/// The first entry comes first on the wire.
proof fn lemma_entries_bytes_first(window: Seq<(u64, Seq<u8>)>)
    requires
        window.len() > 0,
    ensures
        entries_bytes(window) == entry_bytes(window[0]) + entries_bytes(window.skip(1)),
    decreases window.len(),
{
    if window.len() == 1 {
        assert(window.drop_last() =~= Seq::empty());
        assert(window.skip(1) =~= Seq::empty());
        assert(entries_bytes(window.drop_last()) =~= Seq::<u8>::empty());
        assert(entries_bytes(window.skip(1)) =~= Seq::<u8>::empty());
        assert(entries_bytes(window) =~= entry_bytes(window[0]) + entries_bytes(window.skip(1)));
    } else {
        lemma_entries_bytes_first(window.drop_last());
        assert(window.drop_last().skip(1) =~= window.skip(1).drop_last());
        assert(entries_bytes(window) =~= entry_bytes(window[0]) + entries_bytes(window.skip(1)));
    }
}

/// Reading the entries back gives the window, whatever follows them.
proof fn lemma_decode_entries(window: Seq<(u64, Seq<u8>)>, rest: Seq<u8>)
    requires
        wire_sized(window),
    ensures
        decoded_entries(entries_bytes(window) + rest, window.len()) == Some(window),
    decreases window.len(),
{
    if window.len() == 0 {
        assert(window =~= Seq::empty());
    } else {
        let (epoch, commit) = window[0];
        let epoch_bytes = wire::be_bytes(epoch as nat, 8);
        let len_bytes = wire::be_bytes(commit.len(), 4);
        let bytes = entries_bytes(window) + rest;
        let tail = entries_bytes(window.skip(1)) + rest;
        lemma_entries_bytes_first(window);
        wire::lemma_be_bytes_len(epoch as nat, 8);
        wire::lemma_be_bytes_len(commit.len(), 4);
        wire::lemma_byte_ranges();
        assert(commit.len() < 0x1_0000_0000) by {
            assert(window[0].1.len() < 0x1_0000_0000);
        }
        wire::lemma_be_nat_of_bytes(epoch as nat, 8);
        wire::lemma_be_nat_of_bytes(commit.len(), 4);
        assert(bytes =~= epoch_bytes + len_bytes + commit + tail);
        assert(bytes.subrange(0, 8) =~= epoch_bytes);
        assert(bytes.subrange(8, 12) =~= len_bytes);
        assert(bytes.subrange(12, (12 + commit.len()) as int) =~= commit);
        assert(bytes.skip((12 + commit.len()) as int) =~= tail);
        assert forall|i: int| 0 <= i < window.skip(1).len() implies (#[trigger] window.skip(
            1,
        )[i]).1.len() < 0x1_0000_0000 by {
            assert(window.skip(1)[i] == window[i + 1]);
        }
        lemma_decode_entries(window.skip(1), rest);
        assert(seq![window[0]] + window.skip(1) =~= window);
    }
}

/// Entries that were read are what the bytes start with.
proof fn lemma_decoded_entries_inv(bytes: Seq<u8>, count: nat)
    ensures
        decoded_entries(bytes, count) matches Some(window) ==> {
            &&& window.len() == count
            &&& entries_bytes(window).is_prefix_of(bytes)
            &&& forall|i: int|
                0 <= i < window.len() ==> (#[trigger] window[i]).1.len() < 0x1_0000_0000
        },
    decreases count,
{
    if count > 0 && decoded_entries(bytes, count) is Some {
        let window = decoded_entries(bytes, count).unwrap();
        let len = wire::be_nat(bytes.subrange(8, 12)) as int;
        let rest_bytes = bytes.skip(12 + len);
        lemma_decoded_entries_inv(rest_bytes, (count - 1) as nat);
        let rest = decoded_entries(rest_bytes, (count - 1) as nat).unwrap();
        assert(window.skip(1) =~= rest);
        lemma_entries_bytes_first(window);
        wire::lemma_byte_ranges();
        wire::lemma_be_bytes_of_nat(bytes.subrange(0, 8));
        wire::lemma_be_bytes_of_nat(bytes.subrange(8, 12));
        assert(entry_bytes(window[0]) =~= bytes.subrange(0, 12 + len));
        assert(bytes =~= bytes.subrange(0, 12 + len) + rest_bytes);
        assert(entries_bytes(window).is_prefix_of(bytes));
        assert forall|i: int| 0 <= i < window.len() implies (#[trigger] window[i]).1.len()
            < 0x1_0000_0000 by {
            if i > 0 {
                assert(window[i] == rest[i - 1]);
            }
        }
    }
}

/// Law: decoding a transcript gives the window it was made of, whatever bytes follow it.
pub proof fn decode_inverts_transcript(window: Seq<(u64, Seq<u8>)>, rest: Seq<u8>)
    requires
        wire_sized(window),
    ensures
        decoded(transcript_bytes(window) + rest)
            == Ok::<Seq<(u64, Seq<u8>)>, TranscriptDecodeError>(window),
{
    let bytes = transcript_bytes(window) + rest;
    let count_bytes = wire::be_bytes(window.len(), 4);
    wire::lemma_be_bytes_len(window.len(), 4);
    wire::lemma_byte_ranges();
    wire::lemma_be_nat_of_bytes(window.len(), 4);
    assert(bytes =~= MAGIC@ + count_bytes + (entries_bytes(window) + rest));
    assert(bytes.subrange(0, 4) =~= MAGIC@);
    assert(bytes.subrange(4, 8) =~= count_bytes);
    assert(bytes.skip(8) =~= entries_bytes(window) + rest);
    lemma_decode_entries(window, rest);
}

/// Law: what `encode_transcript` wrote for a window, `decode_transcript` gives back, cut to the
/// longest prefix that fits in the byte limit.
pub proof fn decode_inverts_encode(window: Seq<(u64, Seq<u8>)>, max_bytes: nat)
    requires
        wire_sized(window),
        fitting(window, max_bytes - TRANSCRIPT_HEADER_LEN) > 0,
    ensures
        decoded(encoded(window, max_bytes)) == Ok::<Seq<(u64, Seq<u8>)>, TranscriptDecodeError>(
            window.take(fitting(window, max_bytes - TRANSCRIPT_HEADER_LEN) as int),
        ),
{
    fitting_is_longest(window, max_bytes - TRANSCRIPT_HEADER_LEN);
    let prefix = window.take(fitting(window, max_bytes - TRANSCRIPT_HEADER_LEN) as int);
    assert forall|i: int| 0 <= i < prefix.len() implies (#[trigger] prefix[i]).1.len()
        < 0x1_0000_0000 by {
        assert(prefix[i] == window[i]);
    }
    decode_inverts_transcript(prefix, Seq::empty());
    assert(transcript_bytes(prefix) + Seq::<u8>::empty() =~= transcript_bytes(prefix));
}

/// Law: bytes decode to a window if and only if they start with the transcript of that window.
pub proof fn decode_iff_prefix(bytes: Seq<u8>, window: Seq<(u64, Seq<u8>)>)
    ensures
        decoded(bytes) == Ok::<Seq<(u64, Seq<u8>)>, TranscriptDecodeError>(window) <==> (wire_sized(
            window,
        ) && transcript_bytes(window).is_prefix_of(bytes)),
{
    if decoded(bytes) == Ok::<Seq<(u64, Seq<u8>)>, TranscriptDecodeError>(window) {
        let count = wire::be_nat(bytes.subrange(4, 8));
        lemma_decoded_entries_inv(bytes.skip(8), count);
        wire::lemma_byte_ranges();
        wire::lemma_be_bytes_of_nat(bytes.subrange(4, 8));
        assert(bytes =~= bytes.subrange(0, 4) + bytes.subrange(4, 8) + bytes.skip(8));
        assert(transcript_bytes(window).is_prefix_of(bytes));
    }
    if wire_sized(window) && transcript_bytes(window).is_prefix_of(bytes) {
        let rest = bytes.skip(transcript_bytes(window).len() as int);
        assert(bytes =~= transcript_bytes(window) + rest);
        decode_inverts_transcript(window, rest);
    }
}

/// Law: an encoding never takes more bytes than it was given.
pub proof fn encoding_keeps_limit(window: Seq<(u64, Seq<u8>)>, max_bytes: nat)
    ensures
        encoded(window, max_bytes).len() <= max_bytes,
{
    fitting_is_longest(window, max_bytes - TRANSCRIPT_HEADER_LEN);
    let prefix = window.take(fitting(window, max_bytes - TRANSCRIPT_HEADER_LEN) as int);
    lemma_entries_bytes_len(prefix);
    wire::lemma_be_bytes_len(prefix.len(), 4);
}

/// The bytes that `write_transcript_param` appends: the transcript as a transport parameter, or
/// nothing where the transcript is empty.
pub open spec fn transcript_param(window: Seq<(u64, Seq<u8>)>, cap: nat) -> Seq<u8> {
    let blob = encoded(window, transcript_limit(cap));
    if blob.len() == 0 {
        Seq::empty()
    } else {
        params::param_bytes(TRANSCRIPT_PARAM as nat, blob)
    }
}

/// The byte limit on a transcript in a handshake: the cap, or the longest value that a transport
/// parameter can have.
pub open spec fn transcript_limit(cap: nat) -> nat {
    if cap <= params::VARINT_MAX {
        cap
    } else {
        params::VARINT_MAX as nat
    }
}

/// What `read_transcript_param` returns: the window in the first transcript parameter, where there
/// is one and its value decodes.
pub open spec fn transcript_param_read(bytes: Seq<u8>) -> Option<Seq<(u64, Seq<u8>)>> {
    match params::param_find(bytes, TRANSCRIPT_PARAM as nat) {
        None => None,
        Some(blob) => match decoded(blob) {
            Ok(window) => Some(window),
            Err(_) => None,
        },
    }
}

/// Law: a receiver finds behind the sender's other transport parameters the window that the sender
/// embedded there, cut to the longest prefix that its cap allows; and it finds none where nothing
/// was embedded.
pub proof fn embedded_window_is_read(run: Seq<u8>, window: Seq<(u64, Seq<u8>)>, cap: nat)
    requires
        params::params_without(run, TRANSCRIPT_PARAM as nat),
        wire_sized(window),
    ensures
        ({
            let k = fitting(window, transcript_limit(cap) - TRANSCRIPT_HEADER_LEN);
            transcript_param_read(run + transcript_param(window, cap)) == if k == 0 {
                None
            } else {
                Some(window.take(k as int))
            }
        }),
{
    let limit = transcript_limit(cap);
    let k = fitting(window, limit - TRANSCRIPT_HEADER_LEN);
    let blob = encoded(window, limit);
    if k == 0 {
        assert(run + transcript_param(window, cap) =~= run);
        params::absent_param_is_not_found(run, TRANSCRIPT_PARAM as nat);
    } else {
        wire::lemma_be_bytes_len(k, 4);
        encoding_keeps_limit(window, limit);
        decode_inverts_encode(window, limit);
        params::appended_param_is_found(run, TRANSCRIPT_PARAM as nat, blob, Seq::empty());
        assert(run + transcript_param(window, cap) + Seq::<u8>::empty() =~= run + transcript_param(
            window,
            cap,
        ));
    }
}

/// Law: a transcript is the magic `QMT1`, the number of entries as four bytes with the most
/// significant first, and the entries; and its length is that of all of these.
pub proof fn transcript_has_a_fixed_layout(window: Seq<(u64, Seq<u8>)>)
    ensures
        transcript_bytes(window) == seq![
            0x51u8,
            0x4d,
            0x54,
            0x31,
            (window.len() / 0x100_0000 % 256) as u8,
            (window.len() / 0x1_0000 % 256) as u8,
            (window.len() / 0x100 % 256) as u8,
            (window.len() % 256) as u8,
        ] + entries_bytes(window),
        entries_len(window) == entries_bytes(window).len(),
{
    wire::integers_are_written_big_endian(window.len());
    lemma_entries_bytes_len(window);
    assert(MAGIC@ =~= seq![0x51u8, 0x4d, 0x54, 0x31]);
    assert(MAGIC@ + wire::be_bytes(window.len(), 4) =~= seq![
        0x51u8,
        0x4d,
        0x54,
        0x31,
        (window.len() / 0x100_0000 % 256) as u8,
        (window.len() / 0x1_0000 % 256) as u8,
        (window.len() / 0x100 % 256) as u8,
        (window.len() % 256) as u8,
    ]);
}

/// Law: entries follow each other in their order, and each is its epoch as eight bytes, the length
/// of its commit as four, both with the most significant byte first, and the commit.
pub proof fn entry_has_a_fixed_layout(
    window: Seq<(u64, Seq<u8>)>,
    epoch: u64,
    commit: Seq<u8>,
)
    ensures
        entries_bytes(Seq::empty()) == Seq::<u8>::empty(),
        entries_bytes(window.push((epoch, commit))) == entries_bytes(window) + (seq![
            (epoch / 0x100_0000_0000_0000 % 256) as u8,
            (epoch / 0x1_0000_0000_0000 % 256) as u8,
            (epoch / 0x100_0000_0000 % 256) as u8,
            (epoch / 0x1_0000_0000 % 256) as u8,
            (epoch / 0x100_0000 % 256) as u8,
            (epoch / 0x1_0000 % 256) as u8,
            (epoch / 0x100 % 256) as u8,
            (epoch % 256) as u8,
            (commit.len() / 0x100_0000 % 256) as u8,
            (commit.len() / 0x1_0000 % 256) as u8,
            (commit.len() / 0x100 % 256) as u8,
            (commit.len() % 256) as u8,
        ] + commit),
        entry_len((epoch, commit)) == 12 + commit.len(),
{
    wire::integers_are_written_big_endian(epoch as nat);
    wire::integers_are_written_big_endian(commit.len());
    assert(window.push((epoch, commit)).drop_last() =~= window);
    assert(wire::be_bytes(epoch as nat, 8) + wire::be_bytes(commit.len(), 4) =~= seq![
        (epoch / 0x100_0000_0000_0000 % 256) as u8,
        (epoch / 0x1_0000_0000_0000 % 256) as u8,
        (epoch / 0x100_0000_0000 % 256) as u8,
        (epoch / 0x1_0000_0000 % 256) as u8,
        (epoch / 0x100_0000 % 256) as u8,
        (epoch / 0x1_0000 % 256) as u8,
        (epoch / 0x100 % 256) as u8,
        (epoch % 256) as u8,
        (commit.len() / 0x100_0000 % 256) as u8,
        (commit.len() / 0x1_0000 % 256) as u8,
        (commit.len() / 0x100 % 256) as u8,
        (commit.len() % 256) as u8,
    ]);
}

/// Law: an encoding is the transcript of a prefix of the window that fits in the byte limit, and
/// one entry more would not fit; it is empty where not even the first entry fits.
pub proof fn encoding_stops_where_the_limit_is(window: Seq<(u64, Seq<u8>)>, max_bytes: nat)
    ensures
        exists|k: int|
            {
                &&& 0 <= k <= window.len()
                &&& encoded(window, max_bytes) == if k == 0 {
                    Seq::empty()
                } else {
                    #[trigger] transcript_bytes(window.take(k))
                }
                &&& encoded(window, max_bytes).len() <= max_bytes
                &&& k < window.len() ==> transcript_bytes(window.take(k + 1)).len() > max_bytes
            },
{
    let budget = max_bytes - TRANSCRIPT_HEADER_LEN;
    let k = fitting(window, budget) as int;
    fitting_is_longest(window, budget);
    encoding_keeps_limit(window, max_bytes);
    if k < window.len() {
        let more = window.take(k + 1);
        lemma_entries_bytes_len(more);
        wire::lemma_be_bytes_len(more.len(), 4);
        assert(entries_len(more) > budget);
        assert(transcript_bytes(more).len() == 8 + entries_len(more));
    }
    let prefix = window.take(k);
    let whole = transcript_bytes(prefix);
    assert(whole == transcript_bytes(window.take(k)));
    assert(encoded(window, max_bytes) == if k == 0 {
        Seq::empty()
    } else {
        transcript_bytes(prefix)
    });
}

/// Law: bytes are refused for their magic if and only if they are long enough for a header and do
/// not start with `QMT1`, and as truncated if and only if they are shorter than a header or start
/// with `QMT1` and with the transcript of no window.
pub proof fn refusals_tell_what_is_wrong(bytes: Seq<u8>)
    ensures
        decoded(bytes) == Err::<Seq<(u64, Seq<u8>)>, TranscriptDecodeError>(
            TranscriptDecodeError::BadMagic,
        ) <==> bytes.len() >= 8 && !(bytes[0] == 0x51 && bytes[1] == 0x4d && bytes[2] == 0x54
            && bytes[3] == 0x31),
        decoded(bytes) == Err::<Seq<(u64, Seq<u8>)>, TranscriptDecodeError>(
            TranscriptDecodeError::Truncated,
        ) <==> bytes.len() < 8 || (bytes[0] == 0x51 && bytes[1] == 0x4d && bytes[2] == 0x54
            && bytes[3] == 0x31 && forall|window: Seq<(u64, Seq<u8>)>|
            wire_sized(window) ==> !(#[trigger] transcript_bytes(window)).is_prefix_of(bytes)),
{
    assert(MAGIC@ =~= seq![0x51u8, 0x4d, 0x54, 0x31]);
    if bytes.len() >= 8 {
        let head = bytes.subrange(0, 4);
        assert(head =~= seq![bytes[0], bytes[1], bytes[2], bytes[3]]);
        assert(head[0] == bytes[0] && head[1] == bytes[1] && head[2] == bytes[2] && head[3]
            == bytes[3]);
    }
    assert forall|window: Seq<(u64, Seq<u8>)>| wire_sized(window) && (
    #[trigger] transcript_bytes(window)).is_prefix_of(bytes) implies decoded(bytes) is Ok by {
        decode_iff_prefix(bytes, window);
    }
    if decoded(bytes) is Ok {
        decode_iff_prefix(bytes, decoded(bytes)->Ok_0);
    }
}

/// Law: a window can be written without loss if and only if it has fewer than 2^32 entries, each
/// with fewer than 2^32 bytes.
pub proof fn four_bytes_bound_the_window(window: Seq<(u64, Seq<u8>)>)
    ensures
        wire_sized(window) <==> window.len() <= 0xffff_ffff && forall|i: int|
            0 <= i < window.len() ==> (#[trigger] window[i]).1.len() <= 0xffff_ffff,
{
}

/// Law: a transcript is embedded in a handshake as the value of parameter 0x514d, cut to the cap;
/// where nothing of the window fits, nothing is embedded.
pub proof fn transcript_is_embedded_as_one_parameter(window: Seq<(u64, Seq<u8>)>, cap: nat)
    requires
        cap <= 0x3fff_ffff_ffff_ffff,
    ensures
        transcript_param(window, cap) == if encoded(window, cap).len() == 0 {
            Seq::empty()
        } else {
            params::param_bytes(0x514d, encoded(window, cap))
        },
        forall|more: nat|
            more > 0x3fff_ffff_ffff_ffff ==> #[trigger] transcript_param(window, more)
                == transcript_param(window, 0x3fff_ffff_ffff_ffff),
{
}

/// Law: a receiver reads the window of the first parameter 0x514d, whatever follows the transcript
/// in its value and whatever follows the parameter; a value that starts with no transcript gives no
/// window, and so does a handshake without the parameter.
pub proof fn first_transcript_parameter_is_read(
    run: Seq<u8>,
    window: Seq<(u64, Seq<u8>)>,
    more: Seq<u8>,
    value: Seq<u8>,
    rest: Seq<u8>,
)
    requires
        params::params_without(run, 0x514d),
        wire_sized(window),
        (transcript_bytes(window) + more).len() <= 0x3fff_ffff_ffff_ffff,
        value.len() <= 0x3fff_ffff_ffff_ffff,
    ensures
        transcript_param_read(run) is None,
        transcript_param_read(
            run + params::param_bytes(0x514d, transcript_bytes(window) + more) + rest,
        ) == Some(window),
        decoded(value) is Err ==> transcript_param_read(
            run + params::param_bytes(0x514d, value) + rest,
        ) is None,
{
    params::absent_param_is_not_found(run, 0x514d);
    params::appended_param_is_found(run, 0x514d, transcript_bytes(window) + more, rest);
    params::appended_param_is_found(run, 0x514d, value, rest);
    decode_inverts_transcript(window, more);
}

/// Encodes the longest prefix of `window` whose transcript takes at most `max_bytes` bytes.
/// Returns no bytes at all where that prefix is empty.
pub fn encode_transcript(window: &[(u64, Vec<u8>)], max_bytes: usize) -> (out: Vec<u8>)
    ensures
        out@ == encoded(wire::window_view(window@), max_bytes as nat),
{
    let ghost entries = wire::window_view(window@);
    let ghost budget = max_bytes - TRANSCRIPT_HEADER_LEN;
    let mut out: Vec<u8> = Vec::new();
    if max_bytes < TRANSCRIPT_HEADER_LEN {
        proof {
            fitting_is_longest(entries, budget);
        }
        return out;
    }
    let mut room: usize = max_bytes - TRANSCRIPT_HEADER_LEN;
    let mut count: usize = 0;
    proof {
        assert(entries.take(0) =~= Seq::empty());
    }
    while count < window.len() && window[count].1.len() <= room && ENTRY_HEADER_LEN <= room
        - window[count].1.len()
        invariant
            entries == wire::window_view(window@),
            count <= window@.len(),
            budget == max_bytes - TRANSCRIPT_HEADER_LEN,
            room == budget - entries_len(entries.take(count as int)),
        decreases window@.len() - count,
    {
        proof {
            assert(entries.take(count + 1).drop_last() =~= entries.take(count as int));
        }
        room = room - ENTRY_HEADER_LEN - window[count].1.len();
        count = count + 1;
    }
    proof {
        if count < window@.len() {
            assert(entries.take(count + 1).drop_last() =~= entries.take(count as int));
        }
        lemma_fitting_is(entries, budget, count as int);
    }
    if count == 0 {
        return out;
    }
    out.push(MAGIC[0]);
    out.push(MAGIC[1]);
    out.push(MAGIC[2]);
    out.push(MAGIC[3]);
    wire::put_be(&mut out, count as u64, 4);
    let mut i: usize = 0;
    let ghost header = MAGIC@ + wire::be_bytes(count as nat, 4);
    proof {
        assert(entries.take(0) =~= Seq::empty());
        assert(out@ =~= header + entries_bytes(entries.take(0)));
    }
    while i < count
        invariant
            entries == wire::window_view(window@),
            i <= count <= window@.len(),
            out@ == header + entries_bytes(entries.take(i as int)),
        decreases count - i,
    {
        let ghost before = out@;
        wire::put_be(&mut out, window[i].0, 8);
        wire::put_be(&mut out, window[i].1.len() as u64, 4);
        out.extend_from_slice(window[i].1.as_slice());
        proof {
            assert(entries.take(i + 1).drop_last() =~= entries.take(i as int));
            assert(entries[i as int] == (window@[i as int].0, window@[i as int].1@));
            assert(out@ =~= before + entry_bytes(entries[i as int]));
            assert(out@ =~= header + entries_bytes(entries.take(i + 1)));
        }
        i = i + 1;
    }
    out
}

/// Decodes the transcript that `bytes` start with.
pub fn decode_transcript(bytes: &[u8]) -> (r: Result<Vec<(u64, Vec<u8>)>, TranscriptDecodeError>)
    ensures
        match r {
            Ok(window) => decoded(bytes@) == Ok::<Seq<(u64, Seq<u8>)>, TranscriptDecodeError>(
                wire::window_view(window@),
            ),
            Err(e) => decoded(bytes@) == Err::<Seq<(u64, Seq<u8>)>, TranscriptDecodeError>(e),
        },
{
    if bytes.len() < TRANSCRIPT_HEADER_LEN {
        return Err(TranscriptDecodeError::Truncated);
    }
    proof {
        assert(bytes@.subrange(0, 4) =~= seq![bytes@[0], bytes@[1], bytes@[2], bytes@[3]]);
        assert(MAGIC@ =~= seq![0x51u8, 0x4d, 0x54, 0x31]);
    }
    if bytes[0] != MAGIC[0] || bytes[1] != MAGIC[1] || bytes[2] != MAGIC[2] || bytes[3]
        != MAGIC[3] {
        proof {
            let head = bytes@.subrange(0, 4);
            assert(head[0] == bytes@[0] && head[1] == bytes@[1] && head[2] == bytes@[2] && head[3]
                == bytes@[3]);
        }
        return Err(TranscriptDecodeError::BadMagic);
    }
    let count: u64 = wire::read_be(bytes, 4, 4);
    let mut pos: usize = 8;
    let mut out: Vec<(u64, Vec<u8>)> = Vec::new();
    let mut i: u64 = 0;
    let ghost all = decoded_entries(bytes@.skip(8), count as nat);
    proof {
        if let Some(rest) = all {
            assert(wire::window_view(out@) + rest =~= rest);
        }
    }
    while i < count
        invariant
            i <= count,
            8 <= pos <= bytes@.len(),
            all == (match decoded_entries(bytes@.skip(pos as int), (count - i) as nat) {
                None => None,
                Some(rest) => Some(wire::window_view(out@) + rest),
            }),
            decoded(bytes@) == (match all {
                None => Err::<Seq<(u64, Seq<u8>)>, TranscriptDecodeError>(
                    TranscriptDecodeError::Truncated,
                ),
                Some(window) => Ok::<Seq<(u64, Seq<u8>)>, TranscriptDecodeError>(window),
            }),
        decreases count - i,
    {
        let ghost rest = bytes@.skip(pos as int);
        if bytes.len() - pos < ENTRY_HEADER_LEN {
            return Err(TranscriptDecodeError::Truncated);
        }
        proof {
            assert(rest.subrange(0, 8) =~= bytes@.subrange(pos as int, pos + 8));
            assert(rest.subrange(8, 12) =~= bytes@.subrange(pos + 8, pos + 12));
        }
        let epoch: u64 = wire::read_be(bytes, pos, 8);
        let len: u64 = wire::read_be(bytes, pos + 8, 4);
        let body: usize = pos + ENTRY_HEADER_LEN;
        if len > (bytes.len() - body) as u64 {
            return Err(TranscriptDecodeError::Truncated);
        }
        let end: usize = body + len as usize;
        let commit = wire::copy_bytes(vstd::slice::slice_subrange(bytes, body, end));
        let ghost before = wire::window_view(out@);
        out.push((epoch, commit));
        proof {
            assert(rest.subrange(12, 12 + len) =~= bytes@.subrange(body as int, end as int));
            assert(rest.skip(12 + len) =~= bytes@.skip(end as int));
            assert(wire::window_view(out@) =~= before.push((epoch, commit@)));
            if let Some(more) = decoded_entries(bytes@.skip(end as int), (count - i - 1) as nat) {
                assert(before.push((epoch, commit@)) + more =~= before + (seq![(epoch, commit@)]
                    + more));
            }
        }
        pos = end;
        i = i + 1;
    }
    proof {
        assert(wire::window_view(out@) + Seq::<(u64, Seq<u8>)>::empty()
            =~= wire::window_view(out@));
    }
    Ok(out)
}

/// Appends the transcript of `window` as a transport parameter of at most `cap` bytes. Appends
/// nothing where no entry fits, so a window with nothing in it leaves the handshake as it was.
pub fn write_transcript_param(buf: &mut Vec<u8>, window: &[(u64, Vec<u8>)], cap: usize)
    ensures
        final(buf)@ == old(buf)@ + transcript_param(wire::window_view(window@), cap as nat),
{
    let limit: usize = if cap as u64 <= params::VARINT_MAX {
        cap
    } else {
        params::VARINT_MAX as usize
    };
    let blob = encode_transcript(window, limit);
    proof {
        encoding_keeps_limit(wire::window_view(window@), limit as nat);
    }
    if blob.len() > 0 {
        params::put_param(buf, TRANSCRIPT_PARAM, blob.as_slice());
    } else {
        assert(buf@ + Seq::<u8>::empty() =~= buf@);
    }
}

/// Reads the window out of the first transcript parameter of a handshake. Returns nothing where
/// there is no such parameter, or where its value is no transcript.
pub fn read_transcript_param(buf: &[u8]) -> (r: Option<Vec<(u64, Vec<u8>)>>)
    ensures
        match r {
            Some(window) => transcript_param_read(buf@) == Some(wire::window_view(window@)),
            None => transcript_param_read(buf@) is None,
        },
{
    match params::find_param(buf, TRANSCRIPT_PARAM) {
        None => None,
        Some(blob) => match decode_transcript(blob.as_slice()) {
            Ok(window) => Some(window),
            Err(_) => None,
        },
    }
}

} // verus!
