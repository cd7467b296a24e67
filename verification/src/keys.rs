//! The derivation of packet and header protection keys.

use vstd::prelude::*;
use vstd::string::StringSliceAdditionalSpecFns;
use crate::group::{ExportSecret, GroupError};
use crate::group;
use crate::header_key::Aes128EcbHeaderKey;
use crate::hkdf;
use crate::packet_key::Aes128GcmPacketKey;
use crate::packet_key;
use crate::side::Side;
use crate::side;

verus! {

/// How many bytes each directional secret has.
pub const SECRET_LEN: usize = 32;

/// The keys of the two directions of a connection.
#[derive(Debug)]
pub struct KeyPair<T> {
    /// For what this end sends.
    pub local: T,
    /// For what the peer sends.
    pub remote: T,
}

/// The keys of an encryption level.
#[derive(Debug)]
pub struct Keys {
    pub header: KeyPair<Aes128EcbHeaderKey>,
    pub packet: KeyPair<Aes128GcmPacketKey>,
}

/// Whether a packet key is the one that follows from a secret.
pub open spec fn packet_key_of(key: Aes128GcmPacketKey, secret: Seq<u8>) -> bool {
    &&& key.key@ == hkdf::label_expanded(secret, "quic key".spec_bytes(), Seq::empty(), 16)
    &&& key.iv@ == hkdf::label_expanded(secret, "quic iv".spec_bytes(), Seq::empty(), 12)
}

/// Whether a header key is the one that follows from a secret.
pub open spec fn header_key_of(key: Aes128EcbHeaderKey, secret: Seq<u8>) -> bool {
    key.key@ == hkdf::label_expanded(secret, "quic hp".spec_bytes(), Seq::empty(), 16)
}

/// Whether a pair of packet keys is the one that an end has from the two directional secrets.
pub open spec fn packet_keys_of(
    keys: KeyPair<Aes128GcmPacketKey>,
    client_secret: Seq<u8>,
    server_secret: Seq<u8>,
    side: Side,
) -> bool {
    let (local, remote) = match side {
        Side::Client => (client_secret, server_secret),
        Side::Server => (server_secret, client_secret),
    };
    packet_key_of(keys.local, local) && packet_key_of(keys.remote, remote)
}

/// Whether a pair of header keys is the one that an end has from the two directional secrets.
pub open spec fn header_keys_of(
    keys: KeyPair<Aes128EcbHeaderKey>,
    client_secret: Seq<u8>,
    server_secret: Seq<u8>,
    side: Side,
) -> bool {
    let (local, remote) = match side {
        Side::Client => (client_secret, server_secret),
        Side::Server => (server_secret, client_secret),
    };
    header_key_of(keys.local, local) && header_key_of(keys.remote, remote)
}

/// Whether keys are those that an end has from the two directional secrets.
pub open spec fn keys_of(
    keys: Keys,
    client_secret: Seq<u8>,
    server_secret: Seq<u8>,
    side: Side,
) -> bool {
    &&& packet_keys_of(keys.packet, client_secret, server_secret, side)
    &&& header_keys_of(keys.header, client_secret, server_secret, side)
}

/// The Initial secret of one direction of a connection.
pub open spec fn initial_secret(dst_cid: Seq<u8>, label: Seq<u8>) -> Seq<u8> {
    hkdf::label_expanded(
        hkdf::hkdf_extracted(hkdf::INITIAL_SALT@, dst_cid),
        label,
        Seq::empty(),
        SECRET_LEN as nat,
    )
}

/// The request for the secret of what the client sends.
pub open spec fn client_request(level: Seq<u8>, context: Seq<u8>) -> (Seq<u8>, Seq<u8>, nat) {
    ("quic-mls c2s ".spec_bytes() + level, context, SECRET_LEN as nat)
}

/// The request for the secret of what the server sends.
pub open spec fn server_request(level: Seq<u8>, context: Seq<u8>) -> (Seq<u8>, Seq<u8>, nat) {
    ("quic-mls s2c ".spec_bytes() + level, context, SECRET_LEN as nat)
}

/// Whether a group exports the secrets of both directions.
pub open spec fn exports_level(
    exports: group::Exports,
    level: Seq<u8>,
    context: Seq<u8>,
) -> bool {
    exports.contains_key(client_request(level, context)) && exports.contains_key(
        server_request(level, context),
    )
}

/// Whether keys are those that an end has from the secrets that a group exports.
pub open spec fn mls_keys_of(
    keys: Keys,
    exports: group::Exports,
    level: Seq<u8>,
    side: Side,
    context: Seq<u8>,
) -> bool {
    keys_of(
        keys,
        exports[client_request(level, context)],
        exports[server_request(level, context)],
        side,
    )
}

/// Whether a pair of packet keys is the one that an end has from the secrets that a group exports.
pub open spec fn mls_packet_keys_of(
    keys: KeyPair<Aes128GcmPacketKey>,
    exports: group::Exports,
    level: Seq<u8>,
    side: Side,
    context: Seq<u8>,
) -> bool {
    packet_keys_of(
        keys,
        exports[client_request(level, context)],
        exports[server_request(level, context)],
        side,
    )
}

/// The error for which a group exports no keys: that of the client's secret, or else that of the
/// server's.
pub open spec fn mls_keys_error<G: ExportSecret>(
    group: G,
    level: Seq<u8>,
    context: Seq<u8>,
) -> Option<GroupError> {
    let client = client_request(level, context);
    let server = server_request(level, context);
    match group.exported(client.0, client.1, client.2) {
        Err(e) => Some(e),
        Ok(_) => match group.exported(server.0, server.1, server.2) {
            Err(e) => Some(e),
            Ok(_) => None,
        },
    }
}

/// Law: a packet key, its initialisation vector and a header key are expanded from their secret,
/// each under its own info string: `quic key`, `quic iv` and `quic hp`.
pub proof fn keys_are_expanded_under_their_labels(
    packet: Aes128GcmPacketKey,
    header: Aes128EcbHeaderKey,
    secret: Seq<u8>,
)
    ensures
        packet_key_of(packet, secret) <==> packet.key@ == hkdf::hkdf_expanded(
            secret,
            seq![
                0x00u8, 0x10, 0x0e, 0x74, 0x6c, 0x73, 0x31, 0x33, 0x20, 0x71, 0x75, 0x69, 0x63,
                0x20, 0x6b, 0x65, 0x79, 0x00,
            ],
            16,
        ) && packet.iv@ == hkdf::hkdf_expanded(
            secret,
            seq![
                0x00u8, 0x0c, 0x0d, 0x74, 0x6c, 0x73, 0x31, 0x33, 0x20, 0x71, 0x75, 0x69, 0x63,
                0x20, 0x69, 0x76, 0x00,
            ],
            12,
        ),
        header_key_of(header, secret) <==> header.key@ == hkdf::hkdf_expanded(
            secret,
            seq![
                0x00u8, 0x10, 0x0d, 0x74, 0x6c, 0x73, 0x31, 0x33, 0x20, 0x71, 0x75, 0x69, 0x63,
                0x20, 0x68, 0x70, 0x00,
            ],
            16,
        ),
{
    reveal_strlit("quic key");
    vstd::utf8::is_ascii_chars_encode_utf8("quic key"@);
    assert("quic key".spec_bytes() =~= seq![0x71u8, 0x75, 0x69, 0x63, 0x20, 0x6b, 0x65, 0x79]);
    hkdf::label_info_has_the_layout_of_tls(secret, "quic key".spec_bytes(), Seq::empty(), 16);
    assert(hkdf::label_info("quic key".spec_bytes(), Seq::empty(), 16) =~= seq![
        0x00u8, 0x10, 0x0e, 0x74, 0x6c, 0x73, 0x31, 0x33, 0x20, 0x71, 0x75, 0x69, 0x63, 0x20,
        0x6b, 0x65, 0x79, 0x00,
    ]);
    reveal_strlit("quic iv");
    vstd::utf8::is_ascii_chars_encode_utf8("quic iv"@);
    assert("quic iv".spec_bytes() =~= seq![0x71u8, 0x75, 0x69, 0x63, 0x20, 0x69, 0x76]);
    hkdf::label_info_has_the_layout_of_tls(secret, "quic iv".spec_bytes(), Seq::empty(), 12);
    assert(hkdf::label_info("quic iv".spec_bytes(), Seq::empty(), 12) =~= seq![
        0x00u8, 0x0c, 0x0d, 0x74, 0x6c, 0x73, 0x31, 0x33, 0x20, 0x71, 0x75, 0x69, 0x63, 0x20,
        0x69, 0x76, 0x00,
    ]);
    reveal_strlit("quic hp");
    vstd::utf8::is_ascii_chars_encode_utf8("quic hp"@);
    assert("quic hp".spec_bytes() =~= seq![0x71u8, 0x75, 0x69, 0x63, 0x20, 0x68, 0x70]);
    hkdf::label_info_has_the_layout_of_tls(secret, "quic hp".spec_bytes(), Seq::empty(), 16);
    assert(hkdf::label_info("quic hp".spec_bytes(), Seq::empty(), 16) =~= seq![
        0x00u8, 0x10, 0x0d, 0x74, 0x6c, 0x73, 0x31, 0x33, 0x20, 0x71, 0x75, 0x69, 0x63, 0x20,
        0x68, 0x70, 0x00,
    ]);
}

/// Law: each end protects what it sends with the keys of its own secret and opens what it receives
/// with those of the peer's: the client sends under the client's secret, the server under the
/// server's.
pub proof fn each_end_sends_under_its_own_secret(
    keys: Keys,
    client_secret: Seq<u8>,
    server_secret: Seq<u8>,
)
    ensures
        keys_of(keys, client_secret, server_secret, Side::Client) <==> {
            &&& packet_key_of(keys.packet.local, client_secret)
            &&& header_key_of(keys.header.local, client_secret)
            &&& packet_key_of(keys.packet.remote, server_secret)
            &&& header_key_of(keys.header.remote, server_secret)
        },
        keys_of(keys, client_secret, server_secret, Side::Server) <==> {
            &&& packet_key_of(keys.packet.local, server_secret)
            &&& header_key_of(keys.header.local, server_secret)
            &&& packet_key_of(keys.packet.remote, client_secret)
            &&& header_key_of(keys.header.remote, client_secret)
        },
        packet_keys_of(keys.packet, client_secret, server_secret, Side::Client) <==> packet_key_of(
            keys.packet.local,
            client_secret,
        ) && packet_key_of(keys.packet.remote, server_secret),
        packet_keys_of(keys.packet, client_secret, server_secret, Side::Server) <==> packet_key_of(
            keys.packet.local,
            server_secret,
        ) && packet_key_of(keys.packet.remote, client_secret),
{
}

/// Law: the Initial secrets are expanded, as `client in` and `server in`, from what the salt of
/// QUIC version 1 extracts from the connection ID; and the two directions never share an info
/// string.
pub proof fn initial_secrets_follow_from_the_connection_id(dst_cid: Seq<u8>)
    ensures
        ({
            let prk = hkdf::hkdf_extracted(
                seq![
                    0x38u8, 0x76, 0x2c, 0xf7, 0xf5, 0x59, 0x34, 0xb3, 0x4d, 0x17, 0x9a, 0xe6,
                    0xa4, 0xc8, 0x0c, 0xad, 0xcc, 0xbb, 0x7f, 0x0a,
                ],
                dst_cid,
            );
            &&& initial_secret(dst_cid, "client in".spec_bytes()) == hkdf::hkdf_expanded(
                prk,
                seq![
                    0x00u8, 0x20, 0x0f, 0x74, 0x6c, 0x73, 0x31, 0x33, 0x20, 0x63, 0x6c, 0x69,
                    0x65, 0x6e, 0x74, 0x20, 0x69, 0x6e, 0x00,
                ],
                32,
            )
            &&& initial_secret(dst_cid, "server in".spec_bytes()) == hkdf::hkdf_expanded(
                prk,
                seq![
                    0x00u8, 0x20, 0x0f, 0x74, 0x6c, 0x73, 0x31, 0x33, 0x20, 0x73, 0x65, 0x72,
                    0x76, 0x65, 0x72, 0x20, 0x69, 0x6e, 0x00,
                ],
                32,
            )
        }),
        hkdf::label_info("client in".spec_bytes(), Seq::empty(), 32) != hkdf::label_info(
            "server in".spec_bytes(),
            Seq::empty(),
            32,
        ),
{
    reveal_strlit("client in");
    vstd::utf8::is_ascii_chars_encode_utf8("client in"@);
    assert("client in".spec_bytes() =~= seq![
        0x63u8, 0x6c, 0x69, 0x65, 0x6e, 0x74, 0x20, 0x69, 0x6e,
    ]);
    hkdf::label_info_has_the_layout_of_tls(dst_cid, "client in".spec_bytes(), Seq::empty(), 32);
    assert(hkdf::label_info("client in".spec_bytes(), Seq::empty(), 32) =~= seq![
        0x00u8, 0x20, 0x0f, 0x74, 0x6c, 0x73, 0x31, 0x33, 0x20, 0x63, 0x6c, 0x69, 0x65, 0x6e,
        0x74, 0x20, 0x69, 0x6e, 0x00,
    ]);
    reveal_strlit("server in");
    vstd::utf8::is_ascii_chars_encode_utf8("server in"@);
    assert("server in".spec_bytes() =~= seq![
        0x73u8, 0x65, 0x72, 0x76, 0x65, 0x72, 0x20, 0x69, 0x6e,
    ]);
    hkdf::label_info_has_the_layout_of_tls(dst_cid, "server in".spec_bytes(), Seq::empty(), 32);
    assert(hkdf::label_info("server in".spec_bytes(), Seq::empty(), 32) =~= seq![
        0x00u8, 0x20, 0x0f, 0x74, 0x6c, 0x73, 0x31, 0x33, 0x20, 0x73, 0x65, 0x72, 0x76, 0x65,
        0x72, 0x20, 0x69, 0x6e, 0x00,
    ]);
    assert(hkdf::INITIAL_SALT@ =~= seq![
        0x38u8, 0x76, 0x2c, 0xf7, 0xf5, 0x59, 0x34, 0xb3, 0x4d, 0x17, 0x9a, 0xe6, 0xa4, 0xc8,
        0x0c, 0xad, 0xcc, 0xbb, 0x7f, 0x0a,
    ]);
    assert(hkdf::label_info("client in".spec_bytes(), Seq::empty(), 32)[9] == 0x63);
    assert(hkdf::label_info("server in".spec_bytes(), Seq::empty(), 32)[9] == 0x73);
}

/// Law: the two directions never ask a group for the same secret, whatever their levels and
/// contexts, and requests of one direction are the same only for the same level and context. A
/// request has 32 bytes and the label `quic-mls c2s ` or `quic-mls s2c ` in front of the level.
pub proof fn directions_ask_for_their_own_secrets(
    level: Seq<u8>,
    context: Seq<u8>,
    other_level: Seq<u8>,
    other_context: Seq<u8>,
)
    ensures
        client_request(level, context) == (
            seq![0x71u8, 0x75, 0x69, 0x63, 0x2d, 0x6d, 0x6c, 0x73, 0x20, 0x63, 0x32, 0x73, 0x20]
                + level,
            context,
            32nat,
        ),
        server_request(level, context) == (
            seq![0x71u8, 0x75, 0x69, 0x63, 0x2d, 0x6d, 0x6c, 0x73, 0x20, 0x73, 0x32, 0x63, 0x20]
                + level,
            context,
            32nat,
        ),
        client_request(level, context) != server_request(other_level, other_context),
        client_request(level, context) == client_request(other_level, other_context) <==> level
            == other_level && context == other_context,
        server_request(level, context) == server_request(other_level, other_context) <==> level
            == other_level && context == other_context,
{
    reveal_strlit("quic-mls c2s ");
    vstd::utf8::is_ascii_chars_encode_utf8("quic-mls c2s "@);
    assert("quic-mls c2s ".spec_bytes() =~= seq![
        0x71u8, 0x75, 0x69, 0x63, 0x2d, 0x6d, 0x6c, 0x73, 0x20, 0x63, 0x32, 0x73, 0x20,
    ]);
    reveal_strlit("quic-mls s2c ");
    vstd::utf8::is_ascii_chars_encode_utf8("quic-mls s2c "@);
    assert("quic-mls s2c ".spec_bytes() =~= seq![
        0x71u8, 0x75, 0x69, 0x63, 0x2d, 0x6d, 0x6c, 0x73, 0x20, 0x73, 0x32, 0x63, 0x20,
    ]);
    let client = client_request(level, context).0;
    let server = server_request(level, context).0;
    let other_client = client_request(other_level, other_context).0;
    let other_server = server_request(other_level, other_context).0;
    assert(client[9] == 0x63 && other_server[9] == 0x73);
    assert(client.skip(13) =~= level && server.skip(13) =~= level);
    assert(other_client.skip(13) =~= other_level && other_server.skip(13) =~= other_level);
}

/// Law: the keys of a level come from the two secrets that the group exports for it, each from the
/// one of its own direction; there are none, and the error is that of the first request that the
/// group refuses, if it refuses one.
pub proof fn level_keys_come_from_both_exports<G: ExportSecret>(
    group: G,
    level: Seq<u8>,
    side: Side,
    context: Seq<u8>,
    keys: Keys,
)
    ensures
        ({
            let client = group.exported(
                seq![
                    0x71u8, 0x75, 0x69, 0x63, 0x2d, 0x6d, 0x6c, 0x73, 0x20, 0x63, 0x32, 0x73,
                    0x20,
                ] + level,
                context,
                32,
            );
            let server = group.exported(
                seq![
                    0x71u8, 0x75, 0x69, 0x63, 0x2d, 0x6d, 0x6c, 0x73, 0x20, 0x73, 0x32, 0x63,
                    0x20,
                ] + level,
                context,
                32,
            );
            &&& mls_keys_error(group, level, context) == match (client, server) {
                (Err(e), _) => Some(e),
                (Ok(_), Err(e)) => Some(e),
                (Ok(_), Ok(_)) => None,
            }
            &&& exports_level(group::exports(group), level, context) <==> client is Ok && server
                is Ok
            &&& client is Ok && server is Ok ==> (mls_keys_of(
                keys,
                group::exports(group),
                level,
                side,
                context,
            ) <==> keys_of(keys, client->Ok_0, server->Ok_0, side))
            &&& client is Ok && server is Ok ==> (mls_packet_keys_of(
                keys.packet,
                group::exports(group),
                level,
                side,
                context,
            ) <==> packet_keys_of(keys.packet, client->Ok_0, server->Ok_0, side))
        }),
{
    directions_ask_for_their_own_secrets(level, context, level, context);
    let client = client_request(level, context);
    let server = server_request(level, context);
    let exports = group::exports(group);
    assert(exports.contains_key(client) == (group.exported(client.0, client.1, client.2) is Ok));
    assert(exports.contains_key(server) == (group.exported(server.0, server.1, server.2) is Ok));
}

/// Law: what one end protects with its own packet key, the other end opens with the key for what
/// it receives, in both directions, if both have the same two secrets.
pub proof fn packet_keys_match(
    ours: KeyPair<Aes128GcmPacketKey>,
    theirs: KeyPair<Aes128GcmPacketKey>,
    client_secret: Seq<u8>,
    server_secret: Seq<u8>,
    side: Side,
    packet: u64,
    header: Seq<u8>,
    payload: Seq<u8>,
)
    requires
        packet_keys_of(ours, client_secret, server_secret, side),
        packet_keys_of(theirs, client_secret, server_secret, side::peer_of(side)),
    ensures
        packet_key::payload_opened(ours.local, packet, header, payload)
            == packet_key::payload_opened(theirs.remote, packet, header, payload),
        packet_key::payload_opened(ours.remote, packet, header, payload)
            == packet_key::payload_opened(theirs.local, packet, header, payload),
{
}

/// Law: what one end's own header key protects, the other end's key for what it receives removes,
/// if both have the same two secrets.
pub proof fn header_keys_match(
    ours: KeyPair<Aes128EcbHeaderKey>,
    theirs: KeyPair<Aes128EcbHeaderKey>,
    client_secret: Seq<u8>,
    server_secret: Seq<u8>,
    side: Side,
    pn_offset: int,
    datagram: Seq<u8>,
)
    requires
        header_keys_of(ours, client_secret, server_secret, side),
        header_keys_of(theirs, client_secret, server_secret, side::peer_of(side)),
        1 <= pn_offset,
        pn_offset + 20 <= datagram.len(),
    ensures
        crate::header_key::header_unprotected(
            theirs.remote,
            pn_offset,
            crate::header_key::header_protected(ours.local, pn_offset, datagram),
        ) == datagram,
        crate::header_key::header_unprotected(
            ours.remote,
            pn_offset,
            crate::header_key::header_protected(theirs.local, pn_offset, datagram),
        ) == datagram,
{
    crate::header_key::header_protection_round_trip(ours.local, pn_offset, datagram);
    crate::header_key::header_protection_round_trip(theirs.local, pn_offset, datagram);
}

/// Law: two members of a group that export the same secrets have matching packet keys.
pub proof fn members_keys_match(
    ours: Keys,
    our_exports: group::Exports,
    theirs: Keys,
    their_exports: group::Exports,
    level: Seq<u8>,
    side: Side,
    context: Seq<u8>,
    packet: u64,
    header: Seq<u8>,
    payload: Seq<u8>,
)
    requires
        our_exports == their_exports,
        mls_keys_of(ours, our_exports, level, side, context),
        mls_keys_of(theirs, their_exports, level, side::peer_of(side), context),
    ensures
        packet_key::payload_opened(ours.packet.local, packet, header, payload)
            == packet_key::payload_opened(theirs.packet.remote, packet, header, payload),
        packet_key::payload_opened(ours.packet.remote, packet, header, payload)
            == packet_key::payload_opened(theirs.packet.local, packet, header, payload),
{
}

/// The first sixteen bytes of a vector.
fn array16(v: &Vec<u8>) -> (a: [u8; 16])
    requires
        v@.len() == 16,
    ensures
        a@ == v@,
{
    let a: [u8; 16] = [
        v[0], v[1], v[2], v[3], v[4], v[5], v[6], v[7], v[8], v[9], v[10], v[11], v[12], v[13],
        v[14], v[15],
    ];
    assert(a@ =~= v@);
    a
}

/// The first twelve bytes of a vector.
fn array12(v: &Vec<u8>) -> (a: [u8; 12])
    requires
        v@.len() == 12,
    ensures
        a@ == v@,
{
    let a: [u8; 12] = [
        v[0], v[1], v[2], v[3], v[4], v[5], v[6], v[7], v[8], v[9], v[10], v[11],
    ];
    assert(a@ =~= v@);
    a
}

/// The keys of one direction.
pub fn derive_keys_from_secret(secret: &[u8]) -> (keys: (Aes128GcmPacketKey, Aes128EcbHeaderKey))
    requires
        secret@.len() >= SECRET_LEN,
    ensures
        packet_key_of(keys.0, secret@),
        header_key_of(keys.1, secret@),
{
    let none: Vec<u8> = Vec::new();
    assert(none@ =~= Seq::empty());
    let key = array16(&hkdf::hkdf_expand_label(secret, "quic key", none.as_slice(), 16));
    let iv = array12(&hkdf::hkdf_expand_label(secret, "quic iv", none.as_slice(), 12));
    let hp = array16(&hkdf::hkdf_expand_label(secret, "quic hp", none.as_slice(), 16));
    (Aes128GcmPacketKey { key, iv }, Aes128EcbHeaderKey { key: hp })
}

/// The keys of both directions, for one end.
pub fn derive_directional_keys(client_secret: &[u8], server_secret: &[u8], side: Side) -> (keys:
    Keys)
    requires
        client_secret@.len() >= SECRET_LEN,
        server_secret@.len() >= SECRET_LEN,
    ensures
        keys_of(keys, client_secret@, server_secret@, side),
{
    let (client_packet, client_header) = derive_keys_from_secret(client_secret);
    let (server_packet, server_header) = derive_keys_from_secret(server_secret);
    match side {
        Side::Client => Keys {
            header: KeyPair { local: client_header, remote: server_header },
            packet: KeyPair { local: client_packet, remote: server_packet },
        },
        Side::Server => Keys {
            header: KeyPair { local: server_header, remote: client_header },
            packet: KeyPair { local: server_packet, remote: client_packet },
        },
    }
}

/// The Initial secrets of the client and of the server, which follow from the connection ID that
/// the client chose for the server.
pub fn derive_initial_secrets(dst_cid: &[u8]) -> (secrets: (Vec<u8>, Vec<u8>))
    ensures
        secrets.0@ == initial_secret(dst_cid@, "client in".spec_bytes()),
        secrets.1@ == initial_secret(dst_cid@, "server in".spec_bytes()),
        secrets.0@.len() == SECRET_LEN,
        secrets.1@.len() == SECRET_LEN,
{
    let none: Vec<u8> = Vec::new();
    assert(none@ =~= Seq::empty());
    let prk = hkdf::hkdf_extract(hkdf::INITIAL_SALT.as_slice(), dst_cid);
    let client_secret = hkdf::hkdf_expand_label(
        prk.as_slice(),
        "client in",
        none.as_slice(),
        SECRET_LEN,
    );
    let server_secret = hkdf::hkdf_expand_label(
        prk.as_slice(),
        "server in",
        none.as_slice(),
        SECRET_LEN,
    );
    (client_secret, server_secret)
}

/// The Initial keys of an end.
pub fn derive_initial_keys(dst_cid: &[u8], side: Side) -> (keys: Keys)
    ensures
        keys_of(
            keys,
            initial_secret(dst_cid@, "client in".spec_bytes()),
            initial_secret(dst_cid@, "server in".spec_bytes()),
            side,
        ),
{
    let (client_secret, server_secret) = derive_initial_secrets(dst_cid);
    derive_directional_keys(client_secret.as_slice(), server_secret.as_slice(), side)
}

/// The keys of an end from the secrets that a group exports for an encryption level. Fails where
/// the group does not export them, with the error of the first secret that it does not export.
pub fn derive_mls_keys<G: ExportSecret>(group: &G, level: &str, side: Side, context: &[u8]) -> (r:
    Result<Keys, GroupError>)
    ensures
        match r {
            Ok(keys) => exports_level(
                group::exports(*group),
                level.spec_bytes(),
                context@,
            ) && mls_keys_of(
                keys,
                group::exports(*group),
                level.spec_bytes(),
                side,
                context@,
            ),
            Err(e) => mls_keys_error(*group, level.spec_bytes(), context@) == Some(e),
        },
{
    let mut client_label: Vec<u8> = Vec::new();
    client_label.extend_from_slice("quic-mls c2s ".as_bytes());
    client_label.extend_from_slice(level.as_bytes());
    let mut server_label: Vec<u8> = Vec::new();
    server_label.extend_from_slice("quic-mls s2c ".as_bytes());
    server_label.extend_from_slice(level.as_bytes());
    proof {
        assert(client_label@ =~= client_request(level.spec_bytes(), context@).0);
        assert(server_label@ =~= server_request(level.spec_bytes(), context@).0);
    }
    let client_secret = match group.export_secret(client_label.as_slice(), context, SECRET_LEN) {
        Ok(secret) => secret,
        Err(e) => return Err(e),
    };
    let server_secret = match group.export_secret(server_label.as_slice(), context, SECRET_LEN) {
        Ok(secret) => secret,
        Err(e) => return Err(e),
    };
    Ok(derive_directional_keys(client_secret.as_slice(), server_secret.as_slice(), side))
}

} // verus!
