//! QUIC transport parameters: runs of `(identifier, length, value)` items, whose identifiers and
//! lengths are variable-length integers.

use vstd::prelude::*;
use quinn_proto::coding::Codec;
use quinn_proto::transport_parameters::{Error as ReadError, TransportParameters};
use quinn_proto::VarInt;
use crate::side::Side;
use crate::wire;

verus! {

/// Identifier of the connection-wide flow control limit.
pub const TP_INITIAL_MAX_DATA: u64 = 0x04;

/// Identifier of the flow control limit of a stream that the peer opened.
pub const TP_INITIAL_MAX_STREAM_DATA_BIDI_REMOTE: u64 = 0x06;

/// Identifier of the number of bidirectional streams that the peer may open.
pub const TP_INITIAL_MAX_STREAMS_BIDI: u64 = 0x08;

/// The largest variable-length integer.
pub const VARINT_MAX: u64 = 0x3fff_ffff_ffff_ffff;

/// The transport parameters of `quinn-proto`, carried through the handshake as they are.
#[verifier::external_type_specification]
#[verifier::external_body]
pub struct ExTransportParameters(quinn_proto::transport_parameters::TransportParameters);

/// Why bytes were refused as transport parameters.
#[derive(Debug, Clone, Copy, PartialEq, Eq, Structural)]
pub enum ParamsError {
    /// A parameter has a value that the protocol forbids.
    IllegalValue,
    /// The bytes are no run of transport parameters.
    Malformed,
}

/// A variable-length integer on the wire: the shortest of one, two, four and eight bytes that
/// holds it, with the length in the two high bits of the first byte.
pub open spec fn varint_bytes(v: nat) -> Seq<u8> {
    if v < 0x40 {
        wire::be_bytes(v, 1)
    } else if v < 0x4000 {
        wire::be_bytes(0x4000 + v, 2)
    } else if v < 0x4000_0000 {
        wire::be_bytes(0x8000_0000 + v, 4)
    } else {
        wire::be_bytes(0xc000_0000_0000_0000 + v, 8)
    }
}

/// How many bytes a variable-length integer takes, by its first byte.
pub open spec fn varint_size(first: u8) -> nat {
    if first < 0x40 {
        1
    } else if first < 0x80 {
        2
    } else if first < 0xc0 {
        4
    } else {
        8
    }
}

/// What the two high bits of the first byte add to a variable-length integer of `size` bytes.
pub open spec fn varint_tag(size: nat) -> nat {
    if size == 1 {
        0
    } else if size == 2 {
        0x4000
    } else if size == 4 {
        0x8000_0000
    } else {
        0xc000_0000_0000_0000
    }
}

/// The variable-length integer that `bytes` start with, and the bytes behind it.
pub open spec fn varint_read(bytes: Seq<u8>) -> Option<(nat, Seq<u8>)> {
    if bytes.len() == 0 || bytes.len() < varint_size(bytes[0]) {
        None
    } else {
        let size = varint_size(bytes[0]);
        Some(
            (
                (wire::be_nat(bytes.take(size as int)) - varint_tag(size)) as nat,
                bytes.skip(size as int),
            ),
        )
    }
}

/// A transport parameter on the wire.
pub open spec fn param_bytes(id: nat, value: Seq<u8>) -> Seq<u8> {
    varint_bytes(id) + varint_bytes(value.len()) + value
}

/// The first item of a run of parameters: its identifier, its value, and the bytes behind it.
pub open spec fn param_read(bytes: Seq<u8>) -> Option<(nat, Seq<u8>, Seq<u8>)> {
    match varint_read(bytes) {
        None => None,
        Some((id, after_id)) => match varint_read(after_id) {
            None => None,
            Some((len, body)) => if body.len() < len {
                None
            } else {
                Some((id, body.take(len as int), body.skip(len as int)))
            },
        },
    }
}

/// The value of the first parameter with identifier `id`, where the bytes are a run of parameters
/// at least as far as that one.
pub open spec fn param_find(bytes: Seq<u8>, id: nat) -> Option<Seq<u8>>
    decreases bytes.len(),
{
    match param_read(bytes) {
        None => None,
        Some((found, value, rest)) => if found == id {
            Some(value)
        } else if rest.len() < bytes.len() {
            param_find(rest, id)
        } else {
            None
        },
    }
}

/// Whether `bytes` are a run of parameters, none of them with identifier `id`.
pub open spec fn params_without(bytes: Seq<u8>, id: nat) -> bool
    decreases bytes.len(),
{
    bytes.len() == 0 || match param_read(bytes) {
        None => false,
        Some((found, _, rest)) => found != id && rest.len() < bytes.len() && params_without(
            rest,
            id,
        ),
    }
}

/// The parameters that a client takes for the server's until it has heard from it.
pub open spec fn synthetic_param_bytes() -> Seq<u8> {
    param_bytes(TP_INITIAL_MAX_DATA as nat, varint_bytes(65536)) + param_bytes(
        TP_INITIAL_MAX_STREAM_DATA_BIDI_REMOTE as nat,
        varint_bytes(65536),
    ) + param_bytes(TP_INITIAL_MAX_STREAMS_BIDI as nat, varint_bytes(1))
}

/// The bytes that `TransportParameters::write` produces.
pub uninterp spec fn params_written(params: TransportParameters) -> Seq<u8>;

/// What `TransportParameters::read` makes of bytes received at the end `side`.
pub uninterp spec fn params_parsed(side: Side, bytes: Seq<u8>) -> Result<
    TransportParameters,
    ParamsError,
>;

/// `VarInt::from_u64` and `VarInt::encode` of `quinn-proto`: appends the encoding of `v`.
#[verifier::external_body]
pub(crate) fn put_varint(buf: &mut Vec<u8>, v: u64)
    requires
        v <= VARINT_MAX,
    ensures
        final(buf)@ == old(buf)@ + varint_bytes(v as nat),
{
    VarInt::from_u64(v).expect("value fits in a VarInt").encode(buf)
}

/// `VarInt::decode` of `quinn-proto`: takes a variable-length integer off the front of `bytes`, or
/// fails where the bytes end within it.
#[verifier::external_body]
pub(crate) fn take_varint(bytes: &[u8]) -> (r: Option<(u64, &[u8])>)
    ensures
        match r {
            Some((v, rest)) => varint_read(bytes@) == Some((v as nat, rest@)),
            None => varint_read(bytes@) is None,
        },
{
    let mut rest = bytes;
    match VarInt::decode(&mut rest) {
        Ok(v) => Some((v.into_inner(), rest)),
        Err(_) => None,
    }
}

/// `TransportParameters::write` of `quinn-proto`: appends the parameters, which depend on nothing
/// but the value. They are a run of items with identifiers of the registry or of the form
/// `31 * N + 27`.
#[verifier::external_body]
pub(crate) fn params_write(params: &TransportParameters, buf: &mut Vec<u8>)
    ensures
        final(buf)@ == old(buf)@ + params_written(*params),
        params_without(
            final(buf)@.skip(old(buf)@.len() as int),
            crate::transcript::TRANSCRIPT_PARAM as nat,
        ),
{
    params.write(buf)
}

/// `TransportParameters::read` of `quinn-proto`: parses a run of parameters received at the end
/// `side`. Flow control limits and a stream limit of the usual size parse, and an item with an
/// identifier that is not assigned changes nothing behind a run of items.
#[verifier::external_body]
pub(crate) fn params_read(side: Side, bytes: &[u8]) -> (r: Result<TransportParameters, ParamsError>)
    ensures
        r == params_parsed(side, bytes@),
        bytes@ == synthetic_param_bytes() ==> r is Ok,
        forall|run: Seq<u8>, value: Seq<u8>|
            params_without(run, crate::transcript::TRANSCRIPT_PARAM as nat) && value.len()
                <= VARINT_MAX && bytes@ == run + #[trigger] param_bytes(
                crate::transcript::TRANSCRIPT_PARAM as nat,
                value,
            ) ==> r == #[trigger] params_parsed(side, run),
{
    let side = match side {
        Side::Client => quinn_proto::Side::Client,
        Side::Server => quinn_proto::Side::Server,
    };
    match TransportParameters::read(side, &mut &*bytes) {
        Ok(params) => Ok(params),
        Err(ReadError::IllegalValue) => Err(ParamsError::IllegalValue),
        Err(ReadError::Malformed) => Err(ParamsError::Malformed),
    }
}

/// A variable-length integer is read back from what was written, whatever follows it.
pub proof fn varint_round_trip(v: nat, rest: Seq<u8>)
    requires
        v <= VARINT_MAX,
    ensures
        varint_bytes(v).len() > 0,
        varint_read(varint_bytes(v) + rest) == Some((v, rest)),
{
    let bytes = varint_bytes(v) + rest;
    let (tagged, n): (nat, nat) = if v < 0x40 {
        (v, 1)
    } else if v < 0x4000 {
        (0x4000 + v, 2)
    } else if v < 0x4000_0000 {
        (0x8000_0000 + v, 4)
    } else {
        (0xc000_0000_0000_0000 + v, 8)
    };
    wire::lemma_byte_ranges();
    wire::lemma_be_bytes_len(tagged, n);
    wire::lemma_be_nat_of_bytes(tagged, n);
    wire::integers_are_written_big_endian(tagged);
    assert(bytes.take(n as int) =~= varint_bytes(v));
    assert(bytes.skip(n as int) =~= rest);
    assert(bytes[0] == varint_bytes(v)[0]);
}

/// Law: a parameter is read back from what was written, whatever follows it.
pub proof fn param_round_trip(id: nat, value: Seq<u8>, rest: Seq<u8>)
    requires
        id <= VARINT_MAX,
        value.len() <= VARINT_MAX,
    ensures
        param_read(param_bytes(id, value) + rest) == Some((id, value, rest)),
        param_bytes(id, value).len() > 0,
{
    let body = value + rest;
    let after_id = varint_bytes(value.len()) + body;
    varint_round_trip(id, after_id);
    varint_round_trip(value.len(), body);
    assert(param_bytes(id, value) + rest =~= varint_bytes(id) + after_id);
    assert(body.take(value.len() as int) =~= value);
    assert(body.skip(value.len() as int) =~= rest);
}

/// A prefix that holds a variable-length integer decides it.
proof fn lemma_varint_read_extends(bytes: Seq<u8>, more: Seq<u8>)
    requires
        varint_read(bytes) is Some,
    ensures
        varint_read(bytes + more) == Some(
            (varint_read(bytes).unwrap().0, varint_read(bytes).unwrap().1 + more),
        ),
        varint_read(bytes).unwrap().1.len() < bytes.len(),
{
    let size = varint_size(bytes[0]) as int;
    assert((bytes + more)[0] == bytes[0]);
    assert((bytes + more).take(size) =~= bytes.take(size));
    assert((bytes + more).skip(size) =~= bytes.skip(size) + more);
}

/// A prefix that holds a parameter decides it.
proof fn lemma_param_read_extends(bytes: Seq<u8>, more: Seq<u8>)
    requires
        param_read(bytes) is Some,
    ensures
        param_read(bytes + more) == Some(
            (
                param_read(bytes).unwrap().0,
                param_read(bytes).unwrap().1,
                param_read(bytes).unwrap().2 + more,
            ),
        ),
        param_read(bytes).unwrap().2.len() < bytes.len(),
{
    let (id, after_id) = varint_read(bytes).unwrap();
    let (len, body) = varint_read(after_id).unwrap();
    lemma_varint_read_extends(bytes, more);
    lemma_varint_read_extends(after_id, more);
    assert((body + more).take(len as int) =~= body.take(len as int));
    assert((body + more).skip(len as int) =~= body.skip(len as int) + more);
}

/// Law: a parameter appended to a run without its identifier is the one that is found.
pub proof fn appended_param_is_found(run: Seq<u8>, id: nat, value: Seq<u8>, rest: Seq<u8>)
    requires
        params_without(run, id),
        id <= VARINT_MAX,
        value.len() <= VARINT_MAX,
    ensures
        param_find(run + param_bytes(id, value) + rest, id) == Some(value),
    decreases run.len(),
{
    let tail = param_bytes(id, value) + rest;
    assert(run + param_bytes(id, value) + rest =~= run + tail);
    if run.len() == 0 {
        assert(run + tail =~= tail);
        param_round_trip(id, value, rest);
    } else {
        let (_, _, after) = param_read(run).unwrap();
        lemma_param_read_extends(run, tail);
        appended_param_is_found(after, id, value, rest);
        assert(after + param_bytes(id, value) + rest =~= after + tail);
    }
}

/// Law: in a run without an identifier no parameter with it is found.
pub proof fn absent_param_is_not_found(run: Seq<u8>, id: nat)
    requires
        params_without(run, id),
    ensures
        param_find(run, id) is None,
    decreases run.len(),
{
    if run.len() > 0 {
        let (_, _, after) = param_read(run).unwrap();
        absent_param_is_not_found(after, id);
    }
}

/// Law: of the parameters in a run the first with an identifier is the one that is found: one with
/// another identifier in front is passed over, and what follows does not matter.
pub proof fn first_param_counts(
    id: nat,
    value: Seq<u8>,
    other: nat,
    other_value: Seq<u8>,
    rest: Seq<u8>,
)
    requires
        id <= VARINT_MAX,
        other <= VARINT_MAX,
        value.len() <= VARINT_MAX,
        other_value.len() <= VARINT_MAX,
        other != id,
    ensures
        param_find(Seq::empty(), id) is None,
        param_find(param_bytes(id, value) + rest, id) == Some(value),
        param_find(param_bytes(other, other_value) + rest, id) == param_find(rest, id),
{
    param_round_trip(id, value, rest);
    param_round_trip(other, other_value, rest);
}

/// A variable-length integer that is cut short is not read.
proof fn lemma_cut_varint(v: nat, n: int)
    requires
        v <= VARINT_MAX,
        0 <= n < varint_bytes(v).len(),
    ensures
        varint_read(varint_bytes(v).take(n)) is None,
{
    let bytes = varint_bytes(v);
    varint_round_trip(v, Seq::empty());
    assert(bytes + Seq::<u8>::empty() =~= bytes);
    assert(bytes.skip(varint_size(bytes[0]) as int).len() == 0);
    if n > 0 {
        assert(bytes.take(n)[0] == bytes[0]);
    }
}

/// Law: a run that ends within a parameter holds neither that parameter nor any behind it.
pub proof fn cut_param_is_not_found(other: nat, value: Seq<u8>, n: int, id: nat)
    requires
        other <= VARINT_MAX,
        value.len() <= VARINT_MAX,
        0 <= n < param_bytes(other, value).len(),
    ensures
        param_find(param_bytes(other, value).take(n), id) is None,
{
    let id_bytes = varint_bytes(other);
    let len_bytes = varint_bytes(value.len());
    let cut = param_bytes(other, value).take(n);
    if n < id_bytes.len() {
        lemma_cut_varint(other, n);
        assert(cut =~= id_bytes.take(n));
    } else {
        let after_id = (len_bytes + value).take(n - id_bytes.len());
        varint_round_trip(other, after_id);
        assert(cut =~= id_bytes + after_id);
        if n - id_bytes.len() < len_bytes.len() {
            lemma_cut_varint(value.len(), n - id_bytes.len());
            assert(after_id =~= len_bytes.take(n - id_bytes.len()));
        } else {
            let body = value.take(n - id_bytes.len() - len_bytes.len());
            varint_round_trip(value.len(), body);
            assert(after_id =~= len_bytes + body);
        }
    }
}

/// A variable-length integer below 2^14.
proof fn lemma_short_varint(v: nat)
    requires
        v < 0x4000,
    ensures
        varint_bytes(v) == if v < 0x40 {
            seq![v as u8]
        } else {
            seq![(0x40 + v / 256) as u8, (v % 256) as u8]
        },
{
    wire::lemma_short_integers(v);
    wire::lemma_short_integers(0x4000 + v);
    assert((0x4000 + v) / 256 % 256 == 0x40 + v / 256);
    assert((0x4000 + v) % 256 == v % 256);
}

/// Law: a parameter is its identifier, the length of its value, and the value; identifiers and
/// lengths below 64 take one byte, and those below 2^14 two bytes with 0x40 in front.
pub proof fn parameter_has_the_layout_of_quic(id: nat, value: Seq<u8>)
    requires
        id < 0x4000,
        value.len() < 0x4000,
    ensures
        param_bytes(id, value) == (if id < 0x40 {
            seq![id as u8]
        } else {
            seq![(0x40 + id / 256) as u8, (id % 256) as u8]
        }) + (if value.len() < 0x40 {
            seq![value.len() as u8]
        } else {
            seq![(0x40 + value.len() / 256) as u8, (value.len() % 256) as u8]
        }) + value,
{
    lemma_short_varint(id);
    lemma_short_varint(value.len());
}

/// Law: until a client has heard from the server, it takes for the server's parameters that it may
/// send 65536 bytes in all, as many on a stream that it opens, and open one such stream.
pub proof fn assumed_parameters_allow_one_stream()
    ensures
        synthetic_param_bytes() == seq![
            0x04u8, 0x04, 0x80, 0x01, 0x00, 0x00, 0x06, 0x04, 0x80, 0x01, 0x00, 0x00, 0x08, 0x01,
            0x01,
        ],
{
    wire::integers_are_written_big_endian(0x8001_0000);
    wire::integers_are_written_big_endian(1);
    let limit = varint_bytes(65536);
    assert(limit =~= seq![0x80u8, 0x01, 0x00, 0x00]);
    assert(varint_bytes(1) =~= seq![1u8]);
    parameter_has_the_layout_of_quic(4, limit);
    parameter_has_the_layout_of_quic(6, limit);
    parameter_has_the_layout_of_quic(8, varint_bytes(1));
    assert(synthetic_param_bytes() =~= seq![
        0x04u8, 0x04, 0x80, 0x01, 0x00, 0x00, 0x06, 0x04, 0x80, 0x01, 0x00, 0x00, 0x08, 0x01,
        0x01,
    ]);
}

/// Appends a parameter.
pub fn put_param(buf: &mut Vec<u8>, id: u64, value: &[u8])
    requires
        id <= VARINT_MAX,
        value@.len() <= VARINT_MAX,
    ensures
        final(buf)@ == old(buf)@ + param_bytes(id as nat, value@),
{
    put_varint(buf, id);
    put_varint(buf, value.len() as u64);
    buf.extend_from_slice(value);
    assert(buf@ =~= old(buf)@ + param_bytes(id as nat, value@));
}

/// Finds the value of the first parameter with identifier `id`.
pub fn find_param(bytes: &[u8], id: u64) -> (r: Option<Vec<u8>>)
    ensures
        match r {
            Some(value) => param_find(bytes@, id as nat) == Some(value@),
            None => param_find(bytes@, id as nat) is None,
        },
{
    let mut left = bytes;
    loop
        invariant
            param_find(left@, id as nat) == param_find(bytes@, id as nat),
        decreases left@.len(),
    {
        let (found, after_id) = match take_varint(left) {
            Some(v) => v,
            None => return None,
        };
        let (len, body) = match take_varint(after_id) {
            Some(v) => v,
            None => return None,
        };
        if len > body.len() as u64 {
            return None;
        }
        let (value, rest) = body.split_at(len as usize);
        proof {
            assert(value@ =~= body@.take(len as int));
            assert(rest@ =~= body@.skip(len as int));
            assert(left@ + Seq::<u8>::empty() =~= left@);
            lemma_param_read_extends(left@, Seq::empty());
        }
        if found == id {
            return Some(wire::copy_bytes(value));
        }
        left = rest;
    }
}

/// Appends a parameter whose value is one variable-length integer.
pub fn encode_transport_param(buf: &mut Vec<u8>, id: u64, value: u64)
    requires
        id <= VARINT_MAX,
        value <= VARINT_MAX,
    ensures
        final(buf)@ == old(buf)@ + param_bytes(id as nat, varint_bytes(value as nat)),
{
    let mut encoded_value: Vec<u8> = Vec::new();
    put_varint(&mut encoded_value, value);
    proof {
        assert(encoded_value@ =~= varint_bytes(value as nat));
        wire::lemma_be_bytes_len(value as nat, 1);
        wire::lemma_be_bytes_len((0x4000 + value) as nat, 2);
        wire::lemma_be_bytes_len((0x8000_0000 + value) as nat, 4);
        wire::lemma_be_bytes_len((0xc000_0000_0000_0000 + value) as nat, 8);
    }
    put_param(buf, id, encoded_value.as_slice());
}

/// The parameters that a client takes for the server's until it has heard from it: enough to open
/// one stream and to send 64 KiB on it.
pub fn synthetic_cached_peer_params(side: Side) -> (params: TransportParameters)
    ensures
        params_parsed(side, synthetic_param_bytes()) == Ok::<TransportParameters, ParamsError>(
            params,
        ),
{
    let mut buf: Vec<u8> = Vec::new();
    encode_transport_param(&mut buf, TP_INITIAL_MAX_DATA, 65536);
    encode_transport_param(&mut buf, TP_INITIAL_MAX_STREAM_DATA_BIDI_REMOTE, 65536);
    encode_transport_param(&mut buf, TP_INITIAL_MAX_STREAMS_BIDI, 1);
    assert(buf@ =~= synthetic_param_bytes());
    params_read(side, buf.as_slice()).unwrap()
}

} // verus!
