//! The cryptographic state of one connection: the handshake, which exchanges transport parameters
//! and a transcript, and the keys, which the group exports.

use vstd::prelude::*;
use vstd::string::StringSliceAdditionalSpecFns;
use quinn_proto::transport_parameters::TransportParameters;
use crate::group::{ExportSecret, GroupError};
use crate::group;
use crate::header_key::Aes128EcbHeaderKey;
use crate::keys::{derive_initial_keys, derive_mls_keys, KeyPair, Keys};
use crate::keys;
use crate::packet_key::Aes128GcmPacketKey;
use crate::packet_key;
use crate::params::ParamsError;
use crate::params;
use crate::replay::{apply_commit_window, CommitWindowError};
use crate::replay;
use crate::retry;
use crate::side::Side;
use crate::side;
use crate::transcript;
use crate::wire;

verus! {

/// How far the handshake has come.
#[derive(Debug, Clone, Copy, PartialEq, Eq, Structural)]
pub enum HsState {
    /// Nothing is written yet.
    Initial,
    /// The first flight is written, and the peer's transport parameters are awaited.
    AwaitingZeroRttKeys,
    /// The keys of the handshake level are handed out.
    ConfirmingZeroRttKeys,
    /// The keys of the data level are handed out.
    Done,
}

/// Keying material for the application is not offered.
#[derive(Debug, Clone, Copy, PartialEq, Eq, Structural)]
pub struct ExportKeyingMaterialError;

/// The state of a connection apart from its group, which each step is handed.
pub struct Handshake {
    /// Which end of the connection this is.
    pub side: Side,
    /// How far the handshake has come.
    pub state: HsState,
    /// The transport parameters of this end.
    pub local_params: TransportParameters,
    /// The transport parameters of the peer, once they have arrived.
    pub peer_params: Option<TransportParameters>,
    /// What a client takes for the server's transport parameters until they arrive.
    pub cached_peer_params: Option<TransportParameters>,
    /// How the replay of the peer's transcript ended, where its first flight held one.
    pub replayed: Option<Result<(), CommitWindowError>>,
    /// How many key updates there were.
    pub key_update_generation: u64,
    /// The most bytes of transcript to embed in the handshake. None are embedded where it is zero.
    pub transcript_cap: usize,
    /// The keys of the handshake level, taken from the group when the first flight was written.
    pub pinned_zero_rtt_upgrade_keys: Option<Keys>,
    /// The keys of the data level, taken from the group when the first flight was written.
    pub pinned_zero_rtt_keys: Option<Keys>,
}

/// The cryptographic state of one connection.
pub struct MlsSession<G> {
    /// The group that the keys come from.
    pub group: G,
    /// How many of the peer's commits are applied here.
    pub received_epoch: u64,
    /// The rest of the state.
    pub handshake: Handshake,
}

/// The level that the group's secrets are exported for.
pub open spec fn zero_rtt() -> Seq<u8> {
    "0-rtt".spec_bytes()
}

/// Whether keys are what the group exports at this moment, or nothing where it exports none.
pub open spec fn keys_pinned(keys: Option<Keys>, exports: group::Exports, side: Side) -> bool {
    match keys {
        Some(found) => keys::exports_level(exports, zero_rtt(), Seq::empty()) && keys::mls_keys_of(
            found,
            exports,
            zero_rtt(),
            side,
            Seq::empty(),
        ),
        None => !keys::exports_level(exports, zero_rtt(), Seq::empty()),
    }
}

/// The first flight of an end: its transport parameters, and the commits that the peer may lack.
pub open spec fn first_flight<G: ExportSecret>(h: Handshake, group: G) -> Seq<u8> {
    params::params_written(h.local_params) + transcript::transcript_param(
        group.pending(),
        h.transcript_cap as nat,
    )
}

/// Whether writing takes a handshake from `before` to `after`, appends these bytes and gives these
/// keys.
pub open spec fn handshake_written<G: ExportSecret>(
    before: Handshake,
    group: G,
    after: Handshake,
    appended: Seq<u8>,
    keys: Option<Keys>,
) -> bool {
    &&& after == (Handshake {
        state: after.state,
        pinned_zero_rtt_upgrade_keys: after.pinned_zero_rtt_upgrade_keys,
        pinned_zero_rtt_keys: after.pinned_zero_rtt_keys,
        ..before
    })
    &&& match before.state {
        HsState::Initial => {
            &&& appended == first_flight(before, group)
            &&& params::params_without(
                params::params_written(before.local_params),
                transcript::TRANSCRIPT_PARAM as nat,
            )
            &&& keys is None
            &&& after.state == HsState::AwaitingZeroRttKeys
            &&& keys_pinned(
                after.pinned_zero_rtt_upgrade_keys,
                group::exports(group),
                before.side,
            )
            &&& keys_pinned(after.pinned_zero_rtt_keys, group::exports(group), before.side)
        },
        HsState::AwaitingZeroRttKeys => {
            &&& appended == Seq::<u8>::empty()
            &&& if before.peer_params is None {
                after == before && keys is None
            } else {
                &&& after.state == HsState::ConfirmingZeroRttKeys
                &&& keys == before.pinned_zero_rtt_upgrade_keys
                &&& after.pinned_zero_rtt_upgrade_keys is None
                &&& after.pinned_zero_rtt_keys == before.pinned_zero_rtt_keys
            }
        },
        HsState::ConfirmingZeroRttKeys => {
            &&& appended == seq![0u8]
            &&& after.state == HsState::Done
            &&& keys == before.pinned_zero_rtt_keys
            &&& after.pinned_zero_rtt_keys is None
            &&& after.pinned_zero_rtt_upgrade_keys == before.pinned_zero_rtt_upgrade_keys
        },
        HsState::Done => {
            &&& appended == Seq::<u8>::empty()
            &&& after == before
            &&& keys is None
        },
    }
}

/// Whether reading takes a handshake from `before` to `after` and a group in epoch `from` to one in
/// epoch `to`, and returns `r`. Only the first flight that parses counts. Replaying its transcript
/// never fails the handshake; how it ended is kept.
pub open spec fn handshake_read<G: ExportSecret>(
    before: Handshake,
    group_before: G,
    from: u64,
    after: Handshake,
    group_after: G,
    to: u64,
    flight: Seq<u8>,
    r: Result<bool, ParamsError>,
) -> bool {
    if before.peer_params is Some {
        &&& after == before
        &&& group_after == group_before
        &&& to == from
        &&& r == Ok::<bool, ParamsError>(false)
    } else {
        match params::params_parsed(before.side, flight) {
            Err(e) => {
                &&& after == before
                &&& group_after == group_before
                &&& to == from
                &&& r == Err::<bool, ParamsError>(e)
            },
            Ok(found) => {
                &&& r == Ok::<bool, ParamsError>(false)
                &&& after == (Handshake {
                    peer_params: Some(found),
                    replayed: after.replayed,
                    ..before
                })
                &&& match transcript::transcript_param_read(flight) {
                    None => {
                        &&& after.replayed == before.replayed
                        &&& group_after == group_before
                        &&& to == from
                    },
                    Some(window) => after.replayed matches Some(outcome) && replay::replays(
                        group_before,
                        from,
                        window,
                        group_after,
                        to,
                        replay::replay_of(outcome),
                    ),
                }
            },
        }
    }
}

/// Whether these are the keys of early data, which the client sends: at both ends those of the
/// client's direction.
pub open spec fn early_keys(
    r: Option<(Aes128EcbHeaderKey, Aes128GcmPacketKey)>,
    exports: group::Exports,
) -> bool {
    match r {
        Some((header, packet)) => {
            let secret = exports[keys::client_request(zero_rtt(), Seq::empty())];
            &&& keys::exports_level(exports, zero_rtt(), Seq::empty())
            &&& keys::header_key_of(header, secret)
            &&& keys::packet_key_of(packet, secret)
        },
        None => !keys::exports_level(exports, zero_rtt(), Seq::empty()),
    }
}

/// The context of the secrets of a key update.
pub open spec fn generation_context(generation: u64) -> Seq<u8> {
    wire::be_bytes(generation as nat, 8)
}

/// A handshake after one key update more.
pub open spec fn after_update(h: Handshake) -> Handshake {
    Handshake { key_update_generation: (h.key_update_generation + 1) as u64, ..h }
}

/// Law: each key update has the next number, and so a context of its own, whatever the one before
/// had; nothing else of the connection changes with it.
pub proof fn each_update_has_the_next_number(h: Handshake)
    requires
        h.key_update_generation < u64::MAX,
    ensures
        after_update(h).key_update_generation == h.key_update_generation + 1,
        generation_context(after_update(h).key_update_generation) != generation_context(
            h.key_update_generation,
        ),
        after_update(h).state == h.state,
        after_update(h).side == h.side,
        after_update(h).peer_params == h.peer_params,
        after_update(h).pinned_zero_rtt_upgrade_keys == h.pinned_zero_rtt_upgrade_keys,
        after_update(h).pinned_zero_rtt_keys == h.pinned_zero_rtt_keys,
{
    generations_have_distinct_contexts(
        after_update(h).key_update_generation,
        h.key_update_generation,
    );
}

/// Whether these are the packet keys of a key update, or the error for which there are none.
pub open spec fn keys_updated<G: ExportSecret>(
    side: Side,
    group: G,
    generation: u64,
    r: Result<KeyPair<Aes128GcmPacketKey>, GroupError>,
) -> bool {
    let context = generation_context(generation);
    match r {
        Ok(found) => keys::exports_level(group::exports(group), zero_rtt(), context)
            && keys::mls_packet_keys_of(found, group::exports(group), zero_rtt(), side, context),
        Err(e) => keys::mls_keys_error(group, zero_rtt(), context) == Some(e),
    }
}

/// The transport parameters that an end goes by.
pub open spec fn known_params(h: Handshake) -> Option<TransportParameters> {
    if h.peer_params is Some {
        h.peer_params
    } else {
        h.cached_peer_params
    }
}

/// Whether there are still keys to hand out.
pub open spec fn handshaking(h: Handshake) -> bool {
    h.state != HsState::Done
}

/// Whether a handshake is fresh, with this end, parameters and cap.
pub open spec fn fresh_handshake(
    h: Handshake,
    side: Side,
    local_params: TransportParameters,
    transcript_cap: usize,
) -> bool {
    &&& h.side == side
    &&& h.state == HsState::Initial
    &&& h.local_params == local_params
    &&& h.peer_params is None
    &&& match h.cached_peer_params {
        Some(cached) => side == Side::Client && params::params_parsed(
            side,
            params::synthetic_param_bytes(),
        ) == Ok::<TransportParameters, ParamsError>(cached),
        None => side == Side::Server,
    }
    &&& h.replayed is None
    &&& h.key_update_generation == 0
    &&& h.transcript_cap == transcript_cap
    &&& h.pinned_zero_rtt_upgrade_keys is None
    &&& h.pinned_zero_rtt_keys is None
}

/// Whether a session is fresh, with this group, end, parameters, epoch and cap.
pub open spec fn fresh_session<G>(
    s: MlsSession<G>,
    group: G,
    side: Side,
    local_params: TransportParameters,
    received_epoch: u64,
    transcript_cap: usize,
) -> bool {
    &&& s.group == group
    &&& s.received_epoch == received_epoch
    &&& fresh_handshake(s.handshake, side, local_params, transcript_cap)
}

impl Handshake {
    /// A handshake before its first flight.
    pub fn new(side: Side, local_params: TransportParameters, transcript_cap: usize) -> (h: Self)
        ensures
            fresh_handshake(h, side, local_params, transcript_cap),
    {
        let cached_peer_params = match side {
            Side::Client => Some(params::synthetic_cached_peer_params(side)),
            Side::Server => None,
        };
        Handshake {
            side,
            state: HsState::Initial,
            local_params,
            peer_params: None,
            cached_peer_params,
            replayed: None,
            key_update_generation: 0,
            transcript_cap,
            pinned_zero_rtt_upgrade_keys: None,
            pinned_zero_rtt_keys: None,
        }
    }

    /// Whether there are still keys to hand out.
    pub fn is_handshaking(&self) -> (yes: bool)
        ensures
            yes == (self.state != HsState::Done),
            yes == handshaking(*self),
    {
        match self.state {
            HsState::Done => false,
            _ => true,
        }
    }

    /// The keys that the group exports at this moment.
    fn zero_rtt_keys<G: ExportSecret>(&self, group: &G) -> (r: Option<Keys>)
        ensures
            keys_pinned(r, group::exports(*group), self.side),
    {
        let none: Vec<u8> = Vec::new();
        assert(none@ =~= Seq::empty());
        match derive_mls_keys(group, "0-rtt", self.side, none.as_slice()) {
            Ok(found) => Some(found),
            Err(_) => None,
        }
    }

    /// The keys of early data. There are none where the group exports no secrets.
    pub fn early_crypto<G: ExportSecret>(&self, group: &G) -> (r: Option<
        (Aes128EcbHeaderKey, Aes128GcmPacketKey),
    >)
        ensures
            early_keys(r, group::exports(*group)),
    {
        match self.zero_rtt_keys(group) {
            None => None,
            Some(found) => match self.side {
                Side::Client => Some((found.header.local, found.packet.local)),
                Side::Server => Some((found.header.remote, found.packet.remote)),
            },
        }
    }

    /// Writes what is to be sent next, and returns the keys of the next level once they are due.
    /// The first call writes the first flight and takes the keys from the group; later calls hand
    /// out these keys, whatever has become of the group since.
    pub fn write<G: ExportSecret>(&mut self, group: &G, buf: &mut Vec<u8>) -> (keys: Option<Keys>)
        requires
            group.inv(),
        ensures
            final(buf)@.take(old(buf)@.len() as int) == old(buf)@,
            final(buf)@.len() >= old(buf)@.len(),
            handshake_written(
                *old(self),
                *group,
                *final(self),
                final(buf)@.skip(old(buf)@.len() as int),
                keys,
            ),
    {
        let ghost start = buf@;
        match self.state {
            HsState::Initial => {
                params::params_write(&self.local_params, buf);
                let ghost written = buf@;
                proof {
                    assert(written.skip(start.len() as int) =~= params::params_written(
                        self.local_params,
                    ));
                }
                let window = group.pending_commit_window();
                transcript::write_transcript_param(buf, window.as_slice(), self.transcript_cap);
                self.pinned_zero_rtt_upgrade_keys = self.zero_rtt_keys(group);
                self.pinned_zero_rtt_keys = self.zero_rtt_keys(group);
                self.state = HsState::AwaitingZeroRttKeys;
                proof {
                    assert(buf@.take(start.len() as int) =~= start);
                    assert(buf@.skip(start.len() as int) =~= first_flight(*old(self), *group));
                }
                None
            },
            HsState::AwaitingZeroRttKeys => {
                assert(buf@.take(start.len() as int) =~= start);
                assert(buf@.skip(start.len() as int) =~= Seq::empty());
                if self.peer_params.is_none() {
                    return None;
                }
                self.state = HsState::ConfirmingZeroRttKeys;
                self.pinned_zero_rtt_upgrade_keys.take()
            },
            HsState::ConfirmingZeroRttKeys => {
                buf.push(0);
                assert(buf@.take(start.len() as int) =~= start);
                assert(buf@.skip(start.len() as int) =~= seq![0u8]);
                self.state = HsState::Done;
                self.pinned_zero_rtt_keys.take()
            },
            HsState::Done => {
                assert(buf@.take(start.len() as int) =~= start);
                assert(buf@.skip(start.len() as int) =~= Seq::empty());
                None
            },
        }
    }

    /// Reads what the peer sent. The first flight gives the peer's transport parameters, which a
    /// transcript behind them does not change, and its transcript is replayed on the group as far
    /// as it goes; later flights hold nothing.
    pub fn read<G: ExportSecret>(
        &mut self,
        group: &mut G,
        received_epoch: &mut u64,
        buf: &[u8],
    ) -> (r: Result<bool, ParamsError>)
        requires
            old(group).inv(),
        ensures
            final(group).inv(),
            handshake_read(
                *old(self),
                *old(group),
                *old(received_epoch),
                *final(self),
                *final(group),
                *final(received_epoch),
                buf@,
                r,
            ),
            old(self).peer_params is None ==> forall|run: Seq<u8>, value: Seq<u8>|
                params::params_without(run, transcript::TRANSCRIPT_PARAM as nat) && value.len()
                    <= params::VARINT_MAX && buf@ == run + #[trigger] params::param_bytes(
                    transcript::TRANSCRIPT_PARAM as nat,
                    value,
                ) ==> params::params_parsed(old(self).side, buf@)
                    == #[trigger] params::params_parsed(old(self).side, run),
    {
        if self.peer_params.is_none() {
            match params::params_read(self.side, buf) {
                Ok(found) => {
                    self.peer_params = Some(found);
                },
                Err(e) => {
                    return Err(e);
                },
            }
            match transcript::read_transcript_param(buf) {
                Some(window) => {
                    self.replayed = Some(
                        apply_commit_window(group, window.as_slice(), received_epoch),
                    );
                },
                None => {},
            }
        }
        Ok(false)
    }

    /// The peer's transport parameters, or until they arrive what a client takes for them.
    pub fn transport_parameters(&self) -> (r: Result<Option<TransportParameters>, ParamsError>)
        ensures
            r == Ok::<Option<TransportParameters>, ParamsError>(
                if self.peer_params is Some {
                    self.peer_params
                } else {
                    self.cached_peer_params
                },
            ),
            r == Ok::<Option<TransportParameters>, ParamsError>(known_params(*self)),
    {
        match self.peer_params {
            Some(found) => Ok(Some(found)),
            None => Ok(self.cached_peer_params),
        }
    }

    /// The packet keys of the next key update, from the group's current epoch and the number of the
    /// update. Fails where the group exports no secrets.
    pub fn next_1rtt_keys<G: ExportSecret>(&mut self, group: &G) -> (r: Result<
        KeyPair<Aes128GcmPacketKey>,
        GroupError,
    >)
        requires
            old(self).key_update_generation < u64::MAX,
        ensures
            *final(self) == (Handshake {
                key_update_generation: (old(self).key_update_generation + 1) as u64,
                ..*old(self)
            }),
            *final(self) == after_update(*old(self)),
            keys_updated(old(self).side, *group, final(self).key_update_generation, r),
    {
        self.key_update_generation = self.key_update_generation + 1;
        let mut context: Vec<u8> = Vec::new();
        wire::put_be(&mut context, self.key_update_generation, 8);
        assert(context@ =~= generation_context(self.key_update_generation));
        match derive_mls_keys(group, "0-rtt", self.side, context.as_slice()) {
            Ok(found) => Ok(found.packet),
            Err(e) => Err(e),
        }
    }
}

impl<G> MlsSession<G> {
    /// A session before its handshake.
    pub fn new(
        group: G,
        side: Side,
        local_params: TransportParameters,
        received_epoch: u64,
        transcript_cap: usize,
    ) -> (s: Self)
        ensures
            fresh_session(s, group, side, local_params, received_epoch, transcript_cap),
    {
        MlsSession {
            group,
            received_epoch,
            handshake: Handshake::new(side, local_params, transcript_cap),
        }
    }

    /// The Initial keys, which do not depend on the group.
    pub fn initial_keys(&self, dst_cid: &[u8], side: Side) -> (found: Keys)
        ensures
            keys::keys_of(
                found,
                keys::initial_secret(dst_cid@, "client in".spec_bytes()),
                keys::initial_secret(dst_cid@, "server in".spec_bytes()),
                side,
            ),
    {
        derive_initial_keys(dst_cid, side)
    }

    /// Whether the handshake still has keys to hand out.
    pub fn is_handshaking(&self) -> (yes: bool)
        ensures
            yes == (self.handshake.state != HsState::Done),
            yes == handshaking(self.handshake),
    {
        self.handshake.is_handshaking()
    }

    /// Whether the server accepted early data: the shared epoch is proof enough.
    pub fn early_data_accepted(&self) -> (r: Option<bool>)
        ensures
            r == Some(true),
    {
        Some(true)
    }

    /// The peer's transport parameters, or until they arrive what a client takes for them.
    pub fn transport_parameters(&self) -> (r: Result<Option<TransportParameters>, ParamsError>)
        ensures
            r == Ok::<Option<TransportParameters>, ParamsError>(
                if self.handshake.peer_params is Some {
                    self.handshake.peer_params
                } else {
                    self.handshake.cached_peer_params
                },
            ),
            r == Ok::<Option<TransportParameters>, ParamsError>(known_params(self.handshake)),
    {
        self.handshake.transport_parameters()
    }

    /// Whether a Retry packet is from a server that saw the connection ID that the client chose.
    pub fn is_valid_retry(&self, orig_dst_cid: &[u8], header: &[u8], payload: &[u8]) -> (valid:
        bool)
        ensures
            valid == retry::retry_valid(orig_dst_cid@, header@, payload@),
    {
        retry::verify_retry_tag(orig_dst_cid, header, payload)
    }

    /// Refuses to export keying material for the application.
    pub fn export_keying_material(
        &self,
        output: &mut [u8],
        label: &[u8],
        context: &[u8],
    ) -> (r: Result<(), ExportKeyingMaterialError>)
        ensures
            r == Err::<(), ExportKeyingMaterialError>(ExportKeyingMaterialError),
            final(output)@ == old(output)@,
    {
        Err(ExportKeyingMaterialError)
    }
}

impl<G: ExportSecret> MlsSession<G> {
    /// Makes a commit in the group of this session.
    pub fn create_commit(&mut self) -> (r: Result<Vec<u8>, GroupError>)
        requires
            old(self).group.inv(),
            old(self).group.has_room(),
        ensures
            final(self).group.inv(),
            G::commits(old(self).group, final(self).group, group::bytes_result(r)),
            *final(self) == (MlsSession { group: final(self).group, ..*old(self) }),
    {
        self.group.create_commit()
    }

    /// Applies a commit of the peer in the group of this session.
    pub fn apply_commit(&mut self, commit: &[u8]) -> (r: Result<(), GroupError>)
        requires
            old(self).group.inv(),
        ensures
            final(self).group.inv(),
            G::applies(old(self).group, commit@, final(self).group, r.err()),
            *final(self) == (MlsSession { group: final(self).group, ..*old(self) }),
    {
        self.group.apply_commit(commit)
    }

    /// The keys of early data. There are none where the group exports no secrets.
    pub fn early_crypto(&self) -> (r: Option<(Aes128EcbHeaderKey, Aes128GcmPacketKey)>)
        ensures
            early_keys(r, group::exports(self.group)),
    {
        self.handshake.early_crypto(&self.group)
    }

    /// Writes what the handshake has to send next, and returns the keys of the next level once they
    /// are due.
    pub fn write_handshake(&mut self, buf: &mut Vec<u8>) -> (keys: Option<Keys>)
        requires
            old(self).group.inv(),
        ensures
            final(buf)@.take(old(buf)@.len() as int) == old(buf)@,
            final(buf)@.len() >= old(buf)@.len(),
            handshake_written(
                old(self).handshake,
                old(self).group,
                final(self).handshake,
                final(buf)@.skip(old(buf)@.len() as int),
                keys,
            ),
            *final(self) == (MlsSession { handshake: final(self).handshake, ..*old(self) }),
    {
        self.handshake.write(&self.group, buf)
    }

    /// Reads what the peer's handshake sent. The first flight gives the peer's transport
    /// parameters, which a transcript behind them does not change.
    pub fn read_handshake(&mut self, buf: &[u8]) -> (r: Result<bool, ParamsError>)
        requires
            old(self).group.inv(),
        ensures
            final(self).group.inv(),
            handshake_read(
                old(self).handshake,
                old(self).group,
                old(self).received_epoch,
                final(self).handshake,
                final(self).group,
                final(self).received_epoch,
                buf@,
                r,
            ),
            old(self).handshake.peer_params is None ==> forall|run: Seq<u8>, value: Seq<u8>|
                params::params_without(run, transcript::TRANSCRIPT_PARAM as nat) && value.len()
                    <= params::VARINT_MAX && buf@ == run + #[trigger] params::param_bytes(
                    transcript::TRANSCRIPT_PARAM as nat,
                    value,
                ) ==> params::params_parsed(old(self).handshake.side, buf@)
                    == #[trigger] params::params_parsed(old(self).handshake.side, run),
    {
        self.handshake.read(&mut self.group, &mut self.received_epoch, buf)
    }

    /// The packet keys of the next key update, from the group's current epoch and the number of the
    /// update. Fails where the group exports no secrets.
    pub fn next_1rtt_keys(&mut self) -> (r: Result<KeyPair<Aes128GcmPacketKey>, GroupError>)
        requires
            old(self).handshake.key_update_generation < u64::MAX,
        ensures
            *final(self) == (MlsSession { handshake: final(self).handshake, ..*old(self) }),
            final(self).handshake == (Handshake {
                key_update_generation: (old(self).handshake.key_update_generation + 1) as u64,
                ..old(self).handshake
            }),
            final(self).handshake == after_update(old(self).handshake),
            keys_updated(
                old(self).handshake.side,
                old(self).group,
                final(self).handshake.key_update_generation,
                r,
            ),
    {
        self.handshake.next_1rtt_keys(&self.group)
    }
}

/// Law: the keys that a handshake hands out are those that the group exported when the first flight
/// was written, even if the group has moved on in between; and once both are handed out, the
/// handshake is done and stays so.
pub proof fn handed_out_keys_are_pinned<G: ExportSecret>(
    start: Handshake,
    group: G,
    flown: Handshake,
    flight: Seq<u8>,
    awaiting: Handshake,
    later_group: G,
    confirming: Handshake,
    second: Seq<u8>,
    upgrade_keys: Option<Keys>,
    raced: Handshake,
    last_group: G,
    done: Handshake,
    third: Seq<u8>,
    keys: Option<Keys>,
)
    requires
        start.state == HsState::Initial,
        handshake_written(start, group, flown, flight, None),
        awaiting == (Handshake {
            peer_params: awaiting.peer_params,
            replayed: awaiting.replayed,
            key_update_generation: awaiting.key_update_generation,
            ..flown
        }),
        awaiting.peer_params is Some,
        handshake_written(awaiting, later_group, confirming, second, upgrade_keys),
        raced == (Handshake {
            peer_params: raced.peer_params,
            replayed: raced.replayed,
            key_update_generation: raced.key_update_generation,
            ..confirming
        }),
        handshake_written(raced, last_group, done, third, keys),
    ensures
        keys_pinned(upgrade_keys, group::exports(group), start.side),
        keys_pinned(keys, group::exports(group), start.side),
        done.state == HsState::Done,
        forall|any: G, after: Handshake, more: Seq<u8>, given: Option<Keys>| #[trigger]
            handshake_written(done, any, after, more, given) ==> after == done && given is None,
{
}

/// Law: the window that the first flight of one end carries is the one that the other end reads
/// from it, cut to the longest prefix that the cap allows; and an end with nothing pending, or
/// with a cap of zero, adds no byte to its transport parameters.
pub proof fn first_flight_carries_window<G: ExportSecret>(
    before: Handshake,
    group: G,
    after: Handshake,
    flight: Seq<u8>,
)
    requires
        before.state == HsState::Initial,
        handshake_written(before, group, after, flight, None),
        transcript::wire_sized(group.pending()),
    ensures
        ({
            let window = group.pending();
            let limit = transcript::transcript_limit(before.transcript_cap as nat);
            let k = transcript::fitting(window, limit - transcript::TRANSCRIPT_HEADER_LEN);
            &&& transcript::transcript_param_read(flight) == if k == 0 {
                None
            } else {
                Some(window.take(k as int))
            }
            &&& window.len() == 0 || before.transcript_cap == 0 ==> flight
                == params::params_written(before.local_params)
        }),
{
    let window = group.pending();
    let limit = transcript::transcript_limit(before.transcript_cap as nat);
    transcript::embedded_window_is_read(
        params::params_written(before.local_params),
        window,
        before.transcript_cap as nat,
    );
    transcript::fitting_is_longest(window, limit - transcript::TRANSCRIPT_HEADER_LEN);
    if window.len() == 0 || before.transcript_cap == 0 {
        assert(flight =~= params::params_written(before.local_params));
    }
}

/// Law: an end that is behind catches up by reading the first flight of a peer whose log reaches
/// back to it and fits in the cap: it meets no gap, and unless the group refuses a commit it is
/// then in the epoch of the peer's newest commit. The outcome that it keeps tells which of the two
/// happened.
pub proof fn reading_the_flight_catches_up<L: ExportSecret, G: ExportSecret>(
    sender: Handshake,
    log: group::CommitLog<L>,
    sent: Handshake,
    flight: Seq<u8>,
    receiver: Handshake,
    group_before: G,
    from: u64,
    caught_up: Handshake,
    group_after: G,
    to: u64,
)
    requires
        log.inv(),
        sender.state == HsState::Initial,
        handshake_written(sender, log, sent, flight, None),
        transcript::wire_sized(log.pending()),
        transcript::TRANSCRIPT_HEADER_LEN + transcript::entries_len(log.pending())
            <= transcript::transcript_limit(sender.transcript_cap as nat),
        log.state().checkpoint <= from <= log.state().current_epoch,
        receiver.peer_params is None,
        receiver.replayed is None,
        handshake_read(
            receiver,
            group_before,
            from,
            caught_up,
            group_after,
            to,
            flight,
            Ok(false),
        ),
    ensures
        ({
            let end = match caught_up.replayed {
                Some(outcome) => replay::replay_of(outcome),
                None => replay::Replay::Complete,
            };
            &&& replay::replays(group_before, from, log.pending(), group_after, to, end)
            &&& end != replay::Replay::Gap
            &&& end == replay::Replay::Complete <==> to == log.state().current_epoch
            &&& caught_up.replayed is Some <==> log.pending().len() > 0
        }),
{
    let window = log.pending();
    let limit = transcript::transcript_limit(sender.transcript_cap as nat);
    first_flight_carries_window(sender, log, sent, flight);
    let end = match caught_up.replayed {
        Some(outcome) => replay::replay_of(outcome),
        None => replay::Replay::Complete,
    };
    if window.len() > 0 {
        assert(window.take(window.len() as int) =~= window);
        transcript::lemma_fitting_is(
            window,
            limit - transcript::TRANSCRIPT_HEADER_LEN,
            window.len() as int,
        );
    } else {
        transcript::fitting_is_longest(window, limit - transcript::TRANSCRIPT_HEADER_LEN);
    }
    assert(replay::replays(group_before, from, window, group_after, to, end));
    replay::log_window_catches_up(log.state(), group_before, from, group_after, to, end);
}

/// Law: the two ends of a handshake whose groups exported the same secrets when each wrote its
/// first flight have matching packet keys.
pub proof fn handshake_keys_match(
    ours: Keys,
    our_exports: group::Exports,
    theirs: Keys,
    their_exports: group::Exports,
    side: Side,
    packet: u64,
    header: Seq<u8>,
    payload: Seq<u8>,
)
    requires
        our_exports == their_exports,
        keys_pinned(Some(ours), our_exports, side),
        keys_pinned(Some(theirs), their_exports, side::peer_of(side)),
    ensures
        packet_key::payload_opened(ours.packet.local, packet, header, payload)
            == packet_key::payload_opened(theirs.packet.remote, packet, header, payload),
        packet_key::payload_opened(ours.packet.remote, packet, header, payload)
            == packet_key::payload_opened(theirs.packet.local, packet, header, payload),
{
    keys::members_keys_match(
        ours,
        our_exports,
        theirs,
        their_exports,
        zero_rtt(),
        side,
        Seq::empty(),
        packet,
        header,
        payload,
    );
}

/// Law: two ends whose groups export the same secrets get matching packet keys from their key
/// updates of the same number, or neither end gets any.
pub proof fn updated_keys_match<A: ExportSecret, B: ExportSecret>(
    our_group: A,
    ours: Result<KeyPair<Aes128GcmPacketKey>, GroupError>,
    their_group: B,
    theirs: Result<KeyPair<Aes128GcmPacketKey>, GroupError>,
    side: Side,
    generation: u64,
    packet: u64,
    header: Seq<u8>,
    payload: Seq<u8>,
)
    requires
        group::exports(our_group) == group::exports(their_group),
        keys_updated(side, our_group, generation, ours),
        keys_updated(side::peer_of(side), their_group, generation, theirs),
    ensures
        match (ours, theirs) {
            (Ok(our_keys), Ok(their_keys)) => {
                &&& packet_key::payload_opened(our_keys.local, packet, header, payload)
                    == packet_key::payload_opened(their_keys.remote, packet, header, payload)
                &&& packet_key::payload_opened(our_keys.remote, packet, header, payload)
                    == packet_key::payload_opened(their_keys.local, packet, header, payload)
            },
            (Err(_), Err(_)) => true,
            _ => false,
        },
{
    let context = generation_context(generation);
    let exports = group::exports(our_group);
    let client = keys::client_request(zero_rtt(), context);
    let server = keys::server_request(zero_rtt(), context);
    assert(exports.dom().contains(client) == (our_group.exported(client.0, client.1, client.2)
        is Ok));
    assert(exports.dom().contains(server) == (our_group.exported(server.0, server.1, server.2)
        is Ok));
    assert(group::exports(their_group).dom().contains(client) == (their_group.exported(
        client.0,
        client.1,
        client.2,
    ) is Ok));
    assert(group::exports(their_group).dom().contains(server) == (their_group.exported(
        server.0,
        server.1,
        server.2,
    ) is Ok));
    if ours is Ok && theirs is Ok {
        keys::packet_keys_match(
            ours->Ok_0,
            theirs->Ok_0,
            exports[client],
            exports[server],
            side,
            packet,
            header,
            payload,
        );
    }
}

/// Law: after a blackout the two ends have matching keys, if the group keeps agreement: the
/// receiver was in step with one of the sender's states since the checkpoint, read the sender's
/// first flight and caught up with it, and each end then took its keys from its group.
pub proof fn reconnection_keys_match<L: ExportSecret, G: ExportSecret>(
    history: Seq<group::CommitLog<L>>,
    sender: Handshake,
    log: group::CommitLog<L>,
    sent: Handshake,
    flight: Seq<u8>,
    receiver: Handshake,
    group_before: G,
    from: u64,
    caught_up: Handshake,
    group_after: G,
    to: u64,
    sender_keys: Keys,
    receiver_keys: Keys,
    packet: u64,
    header: Seq<u8>,
    payload: Seq<u8>,
)
    requires
        replay::keeps_agreement::<group::CommitLog<L>, G>(),
        log.inv(),
        sender.state == HsState::Initial,
        handshake_written(sender, log, sent, flight, None),
        transcript::wire_sized(log.pending()),
        transcript::TRANSCRIPT_HEADER_LEN + transcript::entries_len(log.pending())
            <= transcript::transcript_limit(sender.transcript_cap as nat),
        replay::made_by(log.pending(), history),
        history.last() == log,
        log.state().checkpoint <= from <= log.state().current_epoch,
        group::exports(group_before) == group::exports(history[from - log.state().checkpoint]),
        receiver.side == side::peer_of(sender.side),
        receiver.peer_params is None,
        receiver.replayed is None,
        handshake_read(
            receiver,
            group_before,
            from,
            caught_up,
            group_after,
            to,
            flight,
            Ok(false),
        ),
        to == log.state().current_epoch,
        keys_pinned(Some(sender_keys), group::exports(log), sender.side),
        keys_pinned(Some(receiver_keys), group::exports(group_after), caught_up.side),
    ensures
        packet_key::payload_opened(sender_keys.packet.local, packet, header, payload)
            == packet_key::payload_opened(receiver_keys.packet.remote, packet, header, payload),
        packet_key::payload_opened(sender_keys.packet.remote, packet, header, payload)
            == packet_key::payload_opened(receiver_keys.packet.local, packet, header, payload),
{
    let window = log.pending();
    reading_the_flight_catches_up(
        sender,
        log,
        sent,
        flight,
        receiver,
        group_before,
        from,
        caught_up,
        group_after,
        to,
    );
    if window.len() > 0 {
        assert(window[0].0 == log.state().checkpoint + 1);
        assert(window.last().0 == log.state().current_epoch);
        replay::replay_keeps_agreement(window, history, group_before, from, group_after, to);
    }
    assert(group::exports(group_after) == group::exports(log));
    handshake_keys_match(
        sender_keys,
        group::exports(log),
        receiver_keys,
        group::exports(group_after),
        sender.side,
        packet,
        header,
        payload,
    );
}

/// Law: no two key updates ask the group for secrets in the same context, and none in that of the
/// handshake.
pub proof fn generations_have_distinct_contexts(first: u64, second: u64)
    requires
        first != second,
    ensures
        generation_context(first) != generation_context(second),
        generation_context(first) != Seq::<u8>::empty(),
{
    wire::lemma_byte_ranges();
    wire::lemma_be_bytes_len(first as nat, 8);
    wire::lemma_be_nat_of_bytes(first as nat, 8);
    wire::lemma_be_nat_of_bytes(second as nat, 8);
}

/// Law: a handshake goes through its four states in order. The first step sends the transport
/// parameters and behind them the transcript of what is pending, the third sends one zero byte, and
/// the others send nothing. The second waits for the peer's parameters. Keys come with the second
/// and third step only, and are those that were pinned for it. Nothing else changes.
pub proof fn handshake_sends_two_flights<G: ExportSecret>(
    before: Handshake,
    group: G,
    after: Handshake,
    appended: Seq<u8>,
    keys: Option<Keys>,
)
    requires
        handshake_written(before, group, after, appended, keys),
    ensures
        after.state == (match before.state {
            HsState::Initial => HsState::AwaitingZeroRttKeys,
            HsState::AwaitingZeroRttKeys => if before.peer_params is Some {
                HsState::ConfirmingZeroRttKeys
            } else {
                HsState::AwaitingZeroRttKeys
            },
            HsState::ConfirmingZeroRttKeys | HsState::Done => HsState::Done,
        }),
        before.state == HsState::Initial ==> {
            let sent = params::params_written(before.local_params);
            &&& sent.is_prefix_of(appended)
            &&& appended.skip(sent.len() as int) == transcript::transcript_param(
                group.pending(),
                before.transcript_cap as nat,
            )
        },
        before.state == HsState::ConfirmingZeroRttKeys ==> appended == seq![0u8],
        before.state == HsState::AwaitingZeroRttKeys || before.state == HsState::Done ==> appended
            == Seq::<u8>::empty(),
        before.state == HsState::AwaitingZeroRttKeys && before.peer_params is Some ==> keys
            == before.pinned_zero_rtt_upgrade_keys,
        before.state == HsState::ConfirmingZeroRttKeys ==> keys == before.pinned_zero_rtt_keys,
        keys is Some ==> (before.state == HsState::AwaitingZeroRttKeys && before.peer_params
            is Some) || before.state == HsState::ConfirmingZeroRttKeys,
        after.side == before.side,
        after.local_params == before.local_params,
        after.peer_params == before.peer_params,
        after.cached_peer_params == before.cached_peer_params,
        after.replayed == before.replayed,
        after.key_update_generation == before.key_update_generation,
        after.transcript_cap == before.transcript_cap,
{
    if before.state == HsState::Initial {
        let sent = params::params_written(before.local_params);
        assert(sent.is_prefix_of(appended));
        assert(appended.skip(sent.len() as int) =~= transcript::transcript_param(
            group.pending(),
            before.transcript_cap as nat,
        ));
    }
}

/// Law: the first flight that parses as the peer's parameters is taken in, and none after it; one
/// that does not parse is refused with the parser's error and changes nothing. What a transcript in
/// the flight does to the group never decides the result, and no reading moves the handshake on.
pub proof fn one_flight_is_taken_in<G: ExportSecret>(
    before: Handshake,
    group_before: G,
    from: u64,
    after: Handshake,
    group_after: G,
    to: u64,
    flight: Seq<u8>,
    r: Result<bool, ParamsError>,
)
    requires
        handshake_read(before, group_before, from, after, group_after, to, flight, r),
    ensures
        before.peer_params is Some ==> after == before && group_after == group_before && to == from
            && r == Ok::<bool, ParamsError>(false),
        before.peer_params is None ==> match params::params_parsed(before.side, flight) {
            Ok(found) => r == Ok::<bool, ParamsError>(false) && after.peer_params == Some(found),
            Err(e) => r == Err::<bool, ParamsError>(e) && after == before && group_after
                == group_before && to == from,
        },
        before.peer_params is None && r is Ok ==> match transcript::transcript_param_read(flight) {
            Some(window) => {
                &&& after.replayed is Some
                &&& replay::replays(
                    group_before,
                    from,
                    window,
                    group_after,
                    to,
                    replay::replay_of(after.replayed->0),
                )
            },
            None => group_after == group_before && to == from && after.replayed == before.replayed,
        },
        after.state == before.state,
        after.side == before.side,
        after.local_params == before.local_params,
        after.cached_peer_params == before.cached_peer_params,
        after.key_update_generation == before.key_update_generation,
        after.transcript_cap == before.transcript_cap,
        after.pinned_zero_rtt_upgrade_keys == before.pinned_zero_rtt_upgrade_keys,
        after.pinned_zero_rtt_keys == before.pinned_zero_rtt_keys,
{
}

/// Law: the keys of a handshake are those of the level `0-rtt` without a context, and there are
/// none exactly where the group does not export both secrets.
pub proof fn handshake_keys_are_those_of_the_zero_rtt_level(
    keys: Keys,
    exports: group::Exports,
    side: Side,
)
    ensures
        zero_rtt() == seq![0x30u8, 0x2d, 0x72, 0x74, 0x74],
        keys_pinned(Some(keys), exports, side) <==> keys::exports_level(
            exports,
            seq![0x30u8, 0x2d, 0x72, 0x74, 0x74],
            Seq::empty(),
        ) && keys::mls_keys_of(
            keys,
            exports,
            seq![0x30u8, 0x2d, 0x72, 0x74, 0x74],
            side,
            Seq::empty(),
        ),
        keys_pinned(None, exports, side) <==> !keys::exports_level(
            exports,
            seq![0x30u8, 0x2d, 0x72, 0x74, 0x74],
            Seq::empty(),
        ),
{
    reveal_strlit("0-rtt");
    vstd::utf8::is_ascii_chars_encode_utf8("0-rtt"@);
    assert("0-rtt".spec_bytes() =~= seq![0x30u8, 0x2d, 0x72, 0x74, 0x74]);
}

/// Law: early data travels under the keys that the client sends with in the handshake: at the
/// client its own, at the server those for what it receives.
pub proof fn early_data_uses_the_clients_keys(
    header: Aes128EcbHeaderKey,
    packet: Aes128GcmPacketKey,
    exports: group::Exports,
    keys: Keys,
    side: Side,
)
    requires
        early_keys(Some((header, packet)), exports),
        keys_pinned(Some(keys), exports, side),
    ensures
        ({
            let (client_header, client_packet) = match side {
                Side::Client => (keys.header.local, keys.packet.local),
                Side::Server => (keys.header.remote, keys.packet.remote),
            };
            &&& header.key@ == client_header.key@
            &&& packet.key@ == client_packet.key@
            &&& packet.iv@ == client_packet.iv@
        }),
        !early_keys(None, exports),
{
}

/// Law: the packet keys of a key update come from the level `0-rtt` in the context of the update's
/// number as eight bytes, most significant first; where the group refuses a secret, its error comes
/// back.
pub proof fn updates_are_keyed_by_their_number<G: ExportSecret>(
    side: Side,
    group: G,
    generation: u64,
    r: Result<KeyPair<Aes128GcmPacketKey>, GroupError>,
)
    ensures
        generation_context(generation) == seq![
            (generation / 0x100_0000_0000_0000 % 256) as u8,
            (generation / 0x1_0000_0000_0000 % 256) as u8,
            (generation / 0x100_0000_0000 % 256) as u8,
            (generation / 0x1_0000_0000 % 256) as u8,
            (generation / 0x100_0000 % 256) as u8,
            (generation / 0x1_0000 % 256) as u8,
            (generation / 0x100 % 256) as u8,
            (generation % 256) as u8,
        ],
        keys_updated(side, group, generation, r) <==> match r {
            Ok(found) => keys::exports_level(
                group::exports(group),
                seq![0x30u8, 0x2d, 0x72, 0x74, 0x74],
                generation_context(generation),
            ) && keys::mls_packet_keys_of(
                found,
                group::exports(group),
                seq![0x30u8, 0x2d, 0x72, 0x74, 0x74],
                side,
                generation_context(generation),
            ),
            Err(e) => keys::mls_keys_error(
                group,
                seq![0x30u8, 0x2d, 0x72, 0x74, 0x74],
                generation_context(generation),
            ) == Some(e),
        },
{
    reveal_strlit("0-rtt");
    vstd::utf8::is_ascii_chars_encode_utf8("0-rtt"@);
    assert("0-rtt".spec_bytes() =~= seq![0x30u8, 0x2d, 0x72, 0x74, 0x74]);
    wire::integers_are_written_big_endian(generation as nat);
}

/// Law: a fresh session is at its end of the connection, with the group, the epoch, the parameters
/// and the cap that it was made with, and with nothing else. Until the server is heard from, a
/// client assumes the parameters that it was built to assume, and a server assumes none.
pub proof fn fresh_session_has_only_what_it_was_given<G>(
    s: MlsSession<G>,
    group: G,
    side: Side,
    local_params: TransportParameters,
    received_epoch: u64,
    transcript_cap: usize,
)
    requires
        fresh_session(s, group, side, local_params, received_epoch, transcript_cap),
    ensures
        s.group == group,
        s.received_epoch == received_epoch,
        s.handshake.side == side,
        s.handshake.state == HsState::Initial,
        s.handshake.local_params == local_params,
        s.handshake.transcript_cap == transcript_cap,
        s.handshake.peer_params is None,
        s.handshake.replayed is None,
        s.handshake.key_update_generation == 0,
        s.handshake.pinned_zero_rtt_upgrade_keys is None,
        s.handshake.pinned_zero_rtt_keys is None,
        side == Side::Server ==> s.handshake.cached_peer_params is None,
        side == Side::Client ==> s.handshake.cached_peer_params is Some && params::params_parsed(
            Side::Client,
            params::synthetic_param_bytes(),
        ) == Ok::<TransportParameters, ParamsError>(s.handshake.cached_peer_params->0),
{
}

/// Law: an end goes by the peer's parameters as soon as it has read them, and by what it assumed
/// until then: a server by none, a client by its assumption.
pub proof fn read_parameters_replace_the_assumed<G: ExportSecret>(
    before: Handshake,
    group_before: G,
    from: u64,
    after: Handshake,
    group_after: G,
    to: u64,
    flight: Seq<u8>,
    r: Result<bool, ParamsError>,
)
    requires
        before.peer_params is None,
        handshake_read(before, group_before, from, after, group_after, to, flight, r),
    ensures
        known_params(before) == before.cached_peer_params,
        match params::params_parsed(before.side, flight) {
            Ok(found) => known_params(after) == Some(found),
            Err(_) => known_params(after) == known_params(before),
        },
{
}

/// Law: a handshake goes on until the keys of the data level are handed out, and is over with that
/// step: no step before ends it, and none after it begins it again.
pub proof fn handshake_ends_with_the_data_keys<G: ExportSecret>(
    before: Handshake,
    group: G,
    after: Handshake,
    appended: Seq<u8>,
    keys: Option<Keys>,
)
    requires
        handshake_written(before, group, after, appended, keys),
    ensures
        handshaking(before) && !handshaking(after) <==> before.state
            == HsState::ConfirmingZeroRttKeys,
        handshaking(after) ==> handshaking(before),
        handshaking(before) <==> before.state == HsState::Initial || before.state
            == HsState::AwaitingZeroRttKeys || before.state == HsState::ConfirmingZeroRttKeys,
{
}

} // verus!
