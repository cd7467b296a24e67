//! What an endpoint needs to start the session of a connection. A group backs one connection at a
//! time, so a configuration starts one session and no more.

use vstd::prelude::*;
use vstd::string::StringSliceAdditionalSpecFns;
use quinn_proto::transport_parameters::TransportParameters;
use crate::keys::{derive_initial_keys, Keys};
use crate::keys;
use crate::packet_key;
use crate::retry;
use crate::session::MlsSession;
use crate::session;
use crate::side::Side;

verus! {

/// The configuration of a client.
pub struct MlsClientConfig<G> {
    /// The group, until a session is started.
    pub group: Option<G>,
    /// The most bytes of transcript to embed in the handshake.
    pub transcript_cap: usize,
}

/// The configuration of a server.
pub struct MlsServerConfig<G> {
    /// The group, until a session is started.
    pub group: Option<G>,
    /// How many of the peer's commits are applied in the group.
    pub received_epoch: u64,
    /// The most bytes of transcript to embed in the handshake.
    pub transcript_cap: usize,
}

impl<G> MlsClientConfig<G> {
    /// A configuration around a group.
    pub fn new(group: G, transcript_cap: usize) -> (config: Self)
        ensures
            config.group == Some(group),
            config.transcript_cap == transcript_cap,
    {
        MlsClientConfig { group: Some(group), transcript_cap }
    }

    /// Starts the session of a connection, the only one that this configuration can start.
    pub fn start_session(&mut self, params: &TransportParameters) -> (s: MlsSession<G>)
        requires
            old(self).group is Some,
        ensures
            final(self).group is None,
            final(self).transcript_cap == old(self).transcript_cap,
            session::fresh_session(
                s,
                old(self).group->0,
                Side::Client,
                *params,
                0,
                old(self).transcript_cap,
            ),
    {
        let group = self.group.take().unwrap();
        MlsSession::new(group, Side::Client, *params, 0, self.transcript_cap)
    }
}

impl<G> MlsServerConfig<G> {
    /// A configuration around a group in which `received_epoch` commits of the peer are applied.
    pub fn new(group: G, received_epoch: u64, transcript_cap: usize) -> (config: Self)
        ensures
            config.group == Some(group),
            config.received_epoch == received_epoch,
            config.transcript_cap == transcript_cap,
    {
        MlsServerConfig { group: Some(group), received_epoch, transcript_cap }
    }

    /// The Initial keys of the server.
    pub fn initial_keys(&self, dst_cid: &[u8]) -> (found: Keys)
        ensures
            keys::keys_of(
                found,
                keys::initial_secret(dst_cid@, "client in".spec_bytes()),
                keys::initial_secret(dst_cid@, "server in".spec_bytes()),
                Side::Server,
            ),
    {
        derive_initial_keys(dst_cid, Side::Server)
    }

    /// The integrity tag of a Retry packet.
    pub fn retry_tag(&self, orig_dst_cid: &[u8], packet: &[u8]) -> (tag: [u8; 16])
        requires
            1 + orig_dst_cid@.len() + packet@.len() <= packet_key::GCM_AAD_MAX,
        ensures
            retry::is_retry_tag(orig_dst_cid@, packet@, tag@),
    {
        retry::compute_retry_tag(orig_dst_cid, packet)
    }

    /// Starts the session of a connection, the only one that this configuration can start.
    pub fn start_session(&mut self, params: &TransportParameters) -> (s: MlsSession<G>)
        requires
            old(self).group is Some,
        ensures
            final(self).group is None,
            final(self).received_epoch == old(self).received_epoch,
            final(self).transcript_cap == old(self).transcript_cap,
            session::fresh_session(
                s,
                old(self).group->0,
                Side::Server,
                *params,
                old(self).received_epoch,
                old(self).transcript_cap,
            ),
    {
        let group = self.group.take().unwrap();
        MlsSession::new(group, Side::Server, *params, self.received_epoch, self.transcript_cap)
    }
}

} // verus!
