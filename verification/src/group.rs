//! MLS groups as the source of secrets, their members, and the log of commits that a peer may still
//! lack.

use std::collections::BTreeMap;
use vstd::prelude::*;
use mls_rs::client_builder::{BaseConfig, WithCryptoProvider, WithIdentityProvider};
use mls_rs::error::MlsError;
use mls_rs::identity::basic::BasicIdentityProvider;
use mls_rs::{ExtensionList, MlsMessage};
use mls_rs_crypto_rustcrypto::RustCryptoProvider;
use crate::wire;

verus! {

broadcast use vstd::std_specs::btree::group_btree_axioms;

/// The secrets that a group exports in its current epoch: a secret for each label, context and
/// length that the group serves.
pub type Exports = Map<(Seq<u8>, Seq<u8>, nat), Seq<u8>>;

/// The error of `mls-rs`, carried through as it is.
#[verifier::external_type_specification]
#[verifier::external_body]
pub struct ExMlsError(mls_rs::error::MlsError);

/// The message of `mls-rs`, carried through as it is.
#[verifier::external_type_specification]
#[verifier::external_body]
pub struct ExMlsMessage(mls_rs::MlsMessage);

/// A group of `mls-rs` with basic credentials and the RustCrypto cipher suites.
#[verifier::external_body]
pub struct MlsGroup {
    pub inner: mls_rs::Group<
        WithIdentityProvider<
            BasicIdentityProvider,
            WithCryptoProvider<RustCryptoProvider, BaseConfig>,
        >,
    >,
}

/// A client of `mls-rs` of the same kind: someone who can be a member of such groups.
#[verifier::external_body]
pub struct MlsMember {
    pub inner: mls_rs::Client<
        WithIdentityProvider<
            BasicIdentityProvider,
            WithCryptoProvider<RustCryptoProvider, BaseConfig>,
        >,
    >,
}

/// An operation on a group failed.
#[derive(Debug)]
pub struct GroupError(pub MlsError);

/// What `Group::export_secret` gives for a label, a context and a length.
pub uninterp spec fn mls_exported(
    group: MlsGroup,
    label: Seq<u8>,
    context: Seq<u8>,
    len: nat,
) -> Result<Seq<u8>, MlsError>;

/// What `MlsMessage::from_bytes` makes of bytes.
pub uninterp spec fn message_parsed(bytes: Seq<u8>) -> Result<MlsMessage, MlsError>;

/// What `MlsMessage::to_bytes` makes of a message.
pub uninterp spec fn message_serialized(message: MlsMessage) -> Result<Seq<u8>, MlsError>;

/// Whether `Group::process_incoming_message` can take a group from `before` to `after`, with this
/// error or with none.
pub uninterp spec fn mls_processed(
    before: MlsGroup,
    message: MlsMessage,
    after: MlsGroup,
    error: Option<MlsError>,
) -> bool;

/// Whether `Group::commit` can take a group from `before` to `after`, with this outcome.
pub uninterp spec fn mls_built(
    before: MlsGroup,
    after: MlsGroup,
    outcome: Result<MlsMessage, MlsError>,
) -> bool;

/// Whether `CommitBuilder::build`, after `add_member` with a key package, can take a group from
/// `before` to `after`, with this welcome or error.
pub uninterp spec fn mls_added(
    before: MlsGroup,
    key_package: MlsMessage,
    after: MlsGroup,
    outcome: Result<MlsMessage, MlsError>,
) -> bool;

/// Whether `Group::apply_pending_commit` can take a group from `before` to `after`, with this error
/// or with none.
pub uninterp spec fn mls_advanced(
    before: MlsGroup,
    after: MlsGroup,
    error: Option<MlsError>,
) -> bool;

/// Whether `Client::create_group` can give a member this outcome.
pub uninterp spec fn mls_founded(member: MlsMember, outcome: Result<MlsGroup, MlsError>) -> bool;

/// Whether `Client::generate_key_package_message` can give a member this outcome.
pub uninterp spec fn mls_key_package(
    member: MlsMember,
    outcome: Result<MlsMessage, MlsError>,
) -> bool;

/// Whether `Client::join_group` can make this of a member and a welcome.
pub uninterp spec fn mls_joined(
    member: MlsMember,
    welcome: MlsMessage,
    outcome: Result<MlsGroup, MlsError>,
) -> bool;

/// A result with the error of `mls-rs` as it came.
pub open spec fn mls_result<T>(r: Result<T, GroupError>) -> Result<T, MlsError> {
    match r {
        Ok(v) => Ok(v),
        Err(e) => Err(e.0),
    }
}

/// A result with its bytes taken by their contents.
pub open spec fn bytes_result<E>(r: Result<Vec<u8>, E>) -> Result<Seq<u8>, E> {
    match r {
        Ok(bytes) => Ok(bytes@),
        Err(e) => Err(e),
    }
}

/// `Group::export_secret` of `mls-rs`: what it gives depends on the group, the label, the context
/// and the length alone, and a secret has that length.
#[verifier::external_body]
fn group_export(group: &MlsGroup, label: &[u8], context: &[u8], len: usize) -> (r: Result<
    Vec<u8>,
    MlsError,
>)
    requires
        len <= isize::MAX,
    ensures
        bytes_result(r) == mls_exported(*group, label@, context@, len as nat),
        r matches Ok(secret) ==> secret@.len() == len,
{
    Ok(group.inner.export_secret(label, context, len)?.as_bytes().to_vec())
}

/// `MlsMessage::from_bytes` of `mls-rs`: what comes of the bytes depends on them alone.
#[verifier::external_body]
fn message_from_bytes(bytes: &[u8]) -> (r: Result<MlsMessage, MlsError>)
    ensures
        r == message_parsed(bytes@),
{
    MlsMessage::from_bytes(bytes)
}

/// `MlsMessage::to_bytes` of `mls-rs`: what comes of the message depends on it alone.
#[verifier::external_body]
fn message_to_bytes(message: &MlsMessage) -> (r: Result<Vec<u8>, MlsError>)
    ensures
        bytes_result(r) == message_serialized(*message),
{
    message.to_bytes()
}

/// `Group::process_incoming_message` of `mls-rs`. Which messages a group accepts, and what it
/// becomes, also depends on the storage that it shares with its member, and is left open.
#[verifier::external_body]
fn group_process(group: &mut MlsGroup, message: MlsMessage) -> (r: Result<(), MlsError>)
    ensures
        mls_processed(*old(group), message, *final(group), r.err()),
{
    group.inner.process_incoming_message(message)?;
    Ok(())
}

/// `Group::commit` of `mls-rs`, with no authenticated data. The commit holds fresh randomness, and
/// what it is is left open.
#[verifier::external_body]
fn group_commit(group: &mut MlsGroup) -> (r: Result<MlsMessage, MlsError>)
    ensures
        mls_built(*old(group), *final(group), r),
{
    Ok(group.inner.commit(vec![])?.commit_message)
}

/// `CommitBuilder::add_member` and `CommitBuilder::build` of `mls-rs`: builds a commit that adds
/// the owner of a key package, and gives the first of its welcomes, of which a commit that adds a
/// member has at least one. The commit holds fresh randomness, and whether the key package is
/// accepted depends on the time, so what comes of it is left open.
#[verifier::external_body]
fn group_add(group: &mut MlsGroup, key_package: MlsMessage) -> (r: Result<MlsMessage, MlsError>)
    ensures
        mls_added(*old(group), key_package, *final(group), r),
{
    let output = group.inner.commit_builder().add_member(key_package)?.build()?;
    Ok(output.welcome_messages[0].clone())
}

/// `Group::apply_pending_commit` of `mls-rs`. It also uses the storage that the group shares with
/// its member, so when it succeeds is left open.
#[verifier::external_body]
fn group_apply_pending(group: &mut MlsGroup) -> (r: Result<(), MlsError>)
    ensures
        mls_advanced(*old(group), *final(group), r.err()),
{
    group.inner.apply_pending_commit()?;
    Ok(())
}

/// `Client::create_group` of `mls-rs`, with no extensions. The group holds fresh randomness, and
/// what it is is left open.
#[verifier::external_body]
fn member_create(member: &MlsMember) -> (r: Result<MlsGroup, MlsError>)
    ensures
        mls_founded(*member, r),
{
    let inner = member.inner.create_group(ExtensionList::new(), ExtensionList::new(), None)?;
    Ok(MlsGroup { inner })
}

/// `Client::generate_key_package_message` of `mls-rs`, with no extensions. The key package holds
/// fresh randomness, and what it is is left open.
#[verifier::external_body]
fn member_key_package(member: &MlsMember) -> (r: Result<MlsMessage, MlsError>)
    ensures
        mls_key_package(*member, r),
{
    member.inner.generate_key_package_message(ExtensionList::new(), ExtensionList::new(), None)
}

/// `Client::join_group` of `mls-rs`, with the tree in the welcome. It also reads the member's
/// storage, which other calls change, so when it succeeds is left open.
#[verifier::external_body]
fn member_join(member: &MlsMember, welcome: &MlsMessage) -> (r: Result<MlsGroup, MlsError>)
    ensures
        mls_joined(*member, *welcome, r),
{
    let (inner, _) = member.inner.join_group(None, welcome, None)?;
    Ok(MlsGroup { inner })
}

/// What the packet protection needs of a group.
pub trait ExportSecret: Send + Sync + Sized {
    /// Whether the value is valid.
    spec fn inv(&self) -> bool;

    /// Whether the value can count one commit more.
    spec fn has_room(&self) -> bool;

    /// What the group exports in its current epoch for a label, a context and a length.
    spec fn exported(&self, label: Seq<u8>, context: Seq<u8>, len: nat) -> Result<
        Seq<u8>,
        GroupError,
    >;

    /// The commits of this group that the peer may still lack, by epoch.
    spec fn pending(&self) -> Seq<(u64, Seq<u8>)>;

    /// Whether applying `commit` can take a group from `before` to `after`, with this error or with
    /// none.
    spec fn applies(
        before: Self,
        commit: Seq<u8>,
        after: Self,
        error: Option<GroupError>,
    ) -> bool;

    /// Whether committing can take a group from `before` to `after`, with this commit or error.
    spec fn commits(before: Self, after: Self, outcome: Result<Seq<u8>, GroupError>) -> bool;

    /// Exports a secret of `len` bytes from the current epoch.
    fn export_secret(&self, label: &[u8], context: &[u8], len: usize) -> (r: Result<
        Vec<u8>,
        GroupError,
    >)
        requires
            len <= isize::MAX,
        ensures
            bytes_result(r) == self.exported(label@, context@, len as nat),
            r matches Ok(secret) ==> secret@.len() == len,
    ;

    /// Applies a commit that the peer made.
    fn apply_commit(&mut self, commit: &[u8]) -> (r: Result<(), GroupError>)
        requires
            old(self).inv(),
        ensures
            final(self).inv(),
            Self::applies(*old(self), commit@, *final(self), r.err()),
    ;

    /// Makes a commit without proposals, applies it here, and returns it for the peer.
    fn create_commit(&mut self) -> (r: Result<Vec<u8>, GroupError>)
        requires
            old(self).inv(),
            old(self).has_room(),
        ensures
            final(self).inv(),
            Self::commits(*old(self), *final(self), bytes_result(r)),
    ;

    /// The commits of this group that the peer may still lack, in the order of their epochs.
    fn pending_commit_window(&self) -> (window: Vec<(u64, Vec<u8>)>)
        requires
            self.inv(),
        ensures
            wire::window_view(window@) == self.pending(),
    ;
}

/// The secrets that a group exports in its current epoch.
pub open spec fn exports<G: ExportSecret>(group: G) -> Exports {
    Map::new(
        |q: (Seq<u8>, Seq<u8>, nat)| group.exported(q.0, q.1, q.2) is Ok,
        |q: (Seq<u8>, Seq<u8>, nat)| group.exported(q.0, q.1, q.2)->Ok_0,
    )
}

/// Whether adding the owner of a key package can take a group from `before` to `after`, with this
/// welcome or error: the commit is built, then applied, then the welcome is written down; the first
/// step to fail is the last.
pub open spec fn adds(
    before: MlsGroup,
    key_package: MlsMessage,
    after: MlsGroup,
    outcome: Result<Seq<u8>, GroupError>,
) -> bool {
    ||| outcome matches Err(e) && mls_added(before, key_package, after, Err(e.0))
    ||| exists|middle: MlsGroup, welcome: MlsMessage| #[trigger]
        mls_added(before, key_package, middle, Ok(welcome)) && {
            ||| outcome matches Err(e) && mls_advanced(middle, after, Some(e.0))
            ||| mls_advanced(middle, after, None) && mls_result(outcome) == message_serialized(
                welcome,
            )
        }
}

impl MlsMember {
    /// Founds a group, with this member alone in it.
    pub fn create_group(&self) -> (r: Result<MlsGroup, GroupError>)
        ensures
            mls_founded(*self, mls_result(r)),
    {
        match member_create(self) {
            Ok(group) => Ok(group),
            Err(e) => Err(GroupError(e)),
        }
    }

    /// Makes a key package, by which another member can add this one to a group.
    pub fn key_package(&self) -> (r: Result<Vec<u8>, GroupError>)
        ensures
            ({
                ||| r matches Err(e) && mls_key_package(*self, Err(e.0))
                ||| exists|message: MlsMessage| #[trigger]
                    mls_key_package(*self, Ok(message)) && mls_result(bytes_result(r))
                        == message_serialized(message)
            }),
    {
        let message = match member_key_package(self) {
            Ok(message) => message,
            Err(e) => return Err(GroupError(e)),
        };
        match message_to_bytes(&message) {
            Ok(bytes) => Ok(bytes),
            Err(e) => Err(GroupError(e)),
        }
    }

    /// Joins the group that a welcome is for. Bytes that are no message are refused with the error
    /// of parsing them.
    pub fn join(&self, welcome: &[u8]) -> (r: Result<MlsGroup, GroupError>)
        ensures
            match message_parsed(welcome@) {
                Err(e) => r == Err::<MlsGroup, GroupError>(GroupError(e)),
                Ok(message) => mls_joined(*self, message, mls_result(r)),
            },
    {
        match message_from_bytes(welcome) {
            Err(e) => Err(GroupError(e)),
            Ok(message) => match member_join(self, &message) {
                Ok(group) => Ok(group),
                Err(e) => Err(GroupError(e)),
            },
        }
    }
}

impl MlsGroup {
    /// Adds the owner of a key package to the group, and returns the welcome for it. Bytes that are
    /// no message are refused with the error of parsing them, and change nothing.
    pub fn add_member(&mut self, key_package: &[u8]) -> (r: Result<Vec<u8>, GroupError>)
        ensures
            match message_parsed(key_package@) {
                Err(e) => r == Err::<Vec<u8>, GroupError>(GroupError(e)) && *final(self) == *old(
                    self,
                ),
                Ok(message) => adds(*old(self), message, *final(self), bytes_result(r)),
            },
    {
        let message = match message_from_bytes(key_package) {
            Ok(message) => message,
            Err(e) => return Err(GroupError(e)),
        };
        let welcome = match group_add(self, message) {
            Ok(welcome) => welcome,
            Err(e) => return Err(GroupError(e)),
        };
        match group_apply_pending(self) {
            Ok(()) => {},
            Err(e) => return Err(GroupError(e)),
        }
        match message_to_bytes(&welcome) {
            Ok(bytes) => Ok(bytes),
            Err(e) => Err(GroupError(e)),
        }
    }
}

impl ExportSecret for MlsGroup {
    open spec fn inv(&self) -> bool {
        true
    }

    open spec fn has_room(&self) -> bool {
        true
    }

    open spec fn exported(&self, label: Seq<u8>, context: Seq<u8>, len: nat) -> Result<
        Seq<u8>,
        GroupError,
    > {
        match mls_exported(*self, label, context, len) {
            Ok(secret) => Ok(secret),
            Err(e) => Err(GroupError(e)),
        }
    }

    open spec fn pending(&self) -> Seq<(u64, Seq<u8>)> {
        Seq::empty()
    }

    /// Bytes that are no message are refused with the error of parsing them, and change nothing; a
    /// message is processed.
    open spec fn applies(
        before: Self,
        commit: Seq<u8>,
        after: Self,
        error: Option<GroupError>,
    ) -> bool {
        match message_parsed(commit) {
            Err(e) => error == Some(GroupError(e)) && after == before,
            Ok(message) => match error {
                None => mls_processed(before, message, after, None),
                Some(e) => mls_processed(before, message, after, Some(e.0)),
            },
        }
    }

    /// The commit is built, then applied, then written down; the first step to fail is the last.
    open spec fn commits(
        before: Self,
        after: Self,
        outcome: Result<Seq<u8>, GroupError>,
    ) -> bool {
        ||| outcome matches Err(e) && mls_built(before, after, Err(e.0))
        ||| exists|middle: MlsGroup, message: MlsMessage| #[trigger]
            mls_built(before, middle, Ok(message)) && {
                ||| outcome matches Err(e) && mls_advanced(middle, after, Some(e.0))
                ||| mls_advanced(middle, after, None) && mls_result(outcome)
                    == message_serialized(message)
            }
    }

    fn export_secret(&self, label: &[u8], context: &[u8], len: usize) -> (r: Result<
        Vec<u8>,
        GroupError,
    >) {
        match group_export(self, label, context, len) {
            Ok(secret) => Ok(secret),
            Err(e) => Err(GroupError(e)),
        }
    }

    fn apply_commit(&mut self, commit: &[u8]) -> (r: Result<(), GroupError>) {
        match message_from_bytes(commit) {
            Err(e) => Err(GroupError(e)),
            Ok(message) => match group_process(self, message) {
                Ok(()) => Ok(()),
                Err(e) => Err(GroupError(e)),
            },
        }
    }

    fn create_commit(&mut self) -> (r: Result<Vec<u8>, GroupError>) {
        let message = match group_commit(self) {
            Ok(message) => message,
            Err(e) => return Err(GroupError(e)),
        };
        match group_apply_pending(self) {
            Ok(()) => {},
            Err(e) => return Err(GroupError(e)),
        }
        match message_to_bytes(&message) {
            Ok(bytes) => Ok(bytes),
            Err(e) => Err(GroupError(e)),
        }
    }

    fn pending_commit_window(&self) -> (window: Vec<(u64, Vec<u8>)>) {
        let window: Vec<(u64, Vec<u8>)> = Vec::new();
        assert(wire::window_view(window@) =~= self.pending());
        window
    }
}

/// What a commit log holds: the commits by epoch, the epoch of the newest, and the epoch up to
/// which the peer is known to have applied them.
pub struct LogState {
    pub log: Map<u64, Seq<u8>>,
    pub current_epoch: u64,
    pub checkpoint: u64,
}

/// Whether a log holds exactly the commits of the epochs after its checkpoint.
pub open spec fn log_wf(s: LogState) -> bool {
    &&& s.checkpoint <= s.current_epoch
    &&& forall|epoch: u64| #[trigger]
        s.log.contains_key(epoch) <==> s.checkpoint < epoch <= s.current_epoch
}

/// An empty log.
pub open spec fn log_empty() -> LogState {
    LogState { log: Map::empty(), current_epoch: 0, checkpoint: 0 }
}

/// The log with one commit more, in the next epoch.
pub open spec fn log_committed(s: LogState, commit: Seq<u8>) -> LogState {
    let epoch = (s.current_epoch + 1) as u64;
    LogState { log: s.log.insert(epoch, commit), current_epoch: epoch, checkpoint: s.checkpoint }
}

/// The checkpoint after the peer reported `reported`: it never goes back, and never beyond the
/// newest commit.
pub open spec fn log_checkpoint(s: LogState, reported: u64) -> u64 {
    let known = if reported < s.current_epoch {
        reported
    } else {
        s.current_epoch
    };
    if known > s.checkpoint {
        known
    } else {
        s.checkpoint
    }
}

/// The log after the peer reported `reported`: without the commits up to the new checkpoint.
pub open spec fn log_trimmed(s: LogState, reported: u64) -> LogState {
    let checkpoint = log_checkpoint(s, reported);
    LogState {
        log: s.log.restrict(Set::new(|epoch: u64| epoch > checkpoint)),
        current_epoch: s.current_epoch,
        checkpoint,
    }
}

/// The commits after the checkpoint, in the order of their epochs.
pub open spec fn log_window(s: LogState) -> Seq<(u64, Seq<u8>)> {
    Seq::new(
        (s.current_epoch - s.checkpoint) as nat,
        |i: int| ((s.checkpoint + 1 + i) as u64, s.log[(s.checkpoint + 1 + i) as u64]),
    )
}

/// A group that keeps each of its commits until the peer reports to have applied it.
pub struct CommitLog<G: ExportSecret> {
    inner: G,
    commit_log: BTreeMap<u64, Vec<u8>>,
    current_epoch: u64,
    checkpoint: u64,
}

impl<G: ExportSecret> CommitLog<G> {
    /// The group underneath.
    pub closed spec fn group(&self) -> G {
        self.inner
    }

    /// What the log holds.
    pub closed spec fn state(&self) -> LogState {
        LogState {
            log: self.commit_log@.map_values(|commit: Vec<u8>| commit@),
            current_epoch: self.current_epoch,
            checkpoint: self.checkpoint,
        }
    }

    /// Puts an empty log around a group.
    pub fn new(inner: G) -> (log: Self)
        requires
            inner.inv(),
        ensures
            log.inv(),
            log.group() == inner,
            log.state() == log_empty(),
    {
        let log = CommitLog { inner, commit_log: BTreeMap::new(), current_epoch: 0, checkpoint: 0 };
        assert(log.state().log =~= Map::empty());
        log
    }

    /// The commits after the checkpoint, in the order of their epochs.
    pub fn window_bytes(&self) -> (window: Vec<(u64, Vec<u8>)>)
        requires
            self.inv(),
        ensures
            wire::window_view(window@) == log_window(self.state()),
    {
        let ghost s = self.state();
        let mut window: Vec<(u64, Vec<u8>)> = Vec::new();
        let mut epoch: u64 = self.checkpoint;
        while epoch < self.current_epoch
            invariant
                s == self.state(),
                log_wf(s),
                s.checkpoint <= epoch <= s.current_epoch,
                s.current_epoch == self.current_epoch,
                wire::window_view(window@) == log_window(s).take(epoch - s.checkpoint),
            decreases s.current_epoch - epoch,
        {
            let ghost before = wire::window_view(window@);
            epoch = epoch + 1;
            proof {
                assert(s.log.contains_key(epoch));
                assert(self.commit_log@.contains_key(epoch));
            }
            if let Some(commit) = self.commit_log.get(&epoch) {
                window.push((epoch, wire::copy_bytes(commit.as_slice())));
                proof {
                    assert(wire::window_view(window@) =~= before.push((epoch, commit@)));
                    assert(s.log[epoch] == commit@);
                    assert(log_window(s).take(epoch - s.checkpoint) =~= log_window(s).take(
                        epoch - 1 - s.checkpoint,
                    ).push((epoch, commit@)));
                }
            }
        }
        proof {
            assert(log_window(s).take((s.current_epoch - s.checkpoint) as int) =~= log_window(s));
        }
        window
    }

    /// Takes note that the peer has applied the commits up to epoch `reported_k`, and forgets them.
    pub fn trim(&mut self, reported_k: u64)
        requires
            old(self).inv(),
        ensures
            final(self).inv(),
            final(self).group() == old(self).group(),
            final(self).state() == log_trimmed(old(self).state(), reported_k),
    {
        let ghost s = self.state();
        let k: u64 = if reported_k < self.current_epoch {
            reported_k
        } else {
            self.current_epoch
        };
        let target: u64 = if k > self.checkpoint {
            k
        } else {
            self.checkpoint
        };
        let mut epoch: u64 = self.checkpoint;
        proof {
            assert(s.log =~= s.log.restrict(Set::new(|e: u64| e > epoch)));
        }
        while epoch < target
            invariant
                s.checkpoint <= epoch <= target,
                self.inner == old(self).inner,
                self.current_epoch == s.current_epoch,
                self.checkpoint == s.checkpoint,
                self.state().log == s.log.restrict(Set::new(|e: u64| e > epoch)),
            decreases target - epoch,
        {
            let ghost before = self.state().log;
            epoch = epoch + 1;
            self.commit_log.remove(&epoch);
            proof {
                assert(self.state().log =~= before.remove(epoch));
                assert(self.state().log =~= s.log.restrict(Set::new(|e: u64| e > epoch)));
            }
        }
        self.checkpoint = target;
    }

    /// The epoch up to which the peer is known to have applied the commits.
    pub fn checkpoint(&self) -> (epoch: u64)
        ensures
            epoch == self.state().checkpoint,
    {
        self.checkpoint
    }
}

impl<G: ExportSecret> ExportSecret for CommitLog<G> {
    open spec fn inv(&self) -> bool {
        self.group().inv() && log_wf(self.state())
    }

    open spec fn has_room(&self) -> bool {
        self.group().has_room() && self.state().current_epoch < u64::MAX
    }

    open spec fn exported(&self, label: Seq<u8>, context: Seq<u8>, len: nat) -> Result<
        Seq<u8>,
        GroupError,
    > {
        self.group().exported(label, context, len)
    }

    open spec fn pending(&self) -> Seq<(u64, Seq<u8>)> {
        log_window(self.state())
    }

    /// The group underneath applies the commit; the log is not touched.
    open spec fn applies(
        before: Self,
        commit: Seq<u8>,
        after: Self,
        error: Option<GroupError>,
    ) -> bool {
        &&& G::applies(before.group(), commit, after.group(), error)
        &&& after.state() == before.state()
    }

    /// The group underneath commits, and its outcome is the outcome; the log grows by the commit,
    /// where there is one.
    open spec fn commits(
        before: Self,
        after: Self,
        outcome: Result<Seq<u8>, GroupError>,
    ) -> bool {
        &&& G::commits(before.group(), after.group(), outcome)
        &&& after.state() == match outcome {
            Ok(commit) => log_committed(before.state(), commit),
            Err(_) => before.state(),
        }
    }

    fn export_secret(&self, label: &[u8], context: &[u8], len: usize) -> (r: Result<
        Vec<u8>,
        GroupError,
    >) {
        self.inner.export_secret(label, context, len)
    }

    fn apply_commit(&mut self, commit: &[u8]) -> (r: Result<(), GroupError>) {
        self.inner.apply_commit(commit)
    }

    fn create_commit(&mut self) -> (r: Result<Vec<u8>, GroupError>) {
        let ghost s = self.state();
        match self.inner.create_commit() {
            Err(e) => Err(e),
            Ok(bytes) => {
                self.current_epoch = self.current_epoch + 1;
                let copy = wire::copy_bytes(bytes.as_slice());
                self.commit_log.insert(self.current_epoch, copy);
                proof {
                    assert(self.state().log =~= log_committed(s, bytes@).log);
                }
                Ok(bytes)
            },
        }
    }

    fn pending_commit_window(&self) -> (window: Vec<(u64, Vec<u8>)>) {
        self.window_bytes()
    }
}

/// Law: a commit is made if and only if it was built, then applied to the group, then written down,
/// and it is the message that was built.
pub proof fn made_commit_is_applied(before: MlsGroup, after: MlsGroup, commit: Seq<u8>)
    ensures
        MlsGroup::commits(before, after, Ok(commit)) <==> exists|
            middle: MlsGroup,
            message: MlsMessage,
        | #[trigger]
            mls_built(before, middle, Ok(message)) && mls_advanced(middle, after, None)
                && message_serialized(message) == Ok::<Seq<u8>, MlsError>(commit),
{
}

/// Law: a member is added if and only if the commit that adds the owner of its key package was
/// built and applied to the group, and the welcome that came with it was written down.
pub proof fn welcome_comes_with_an_applied_commit(
    before: MlsGroup,
    key_package: MlsMessage,
    after: MlsGroup,
    welcome: Seq<u8>,
)
    ensures
        adds(before, key_package, after, Ok(welcome)) <==> exists|
            middle: MlsGroup,
            message: MlsMessage,
        | #[trigger]
            mls_added(before, key_package, middle, Ok(message)) && mls_advanced(middle, after, None)
                && message_serialized(message) == Ok::<Seq<u8>, MlsError>(welcome),
{
}

/// Law: bytes that are no message change no group and are refused with the error of parsing them;
/// bytes that are a message are accepted if and only if the group processes the message.
pub proof fn commit_bytes_are_processed_as_a_message(
    before: MlsGroup,
    commit: Seq<u8>,
    after: MlsGroup,
    error: Option<GroupError>,
    reason: MlsError,
    message: MlsMessage,
)
    ensures
        message_parsed(commit) == Err::<MlsMessage, MlsError>(reason) ==> (MlsGroup::applies(
            before,
            commit,
            after,
            error,
        ) <==> after == before && error == Some(GroupError(reason))),
        message_parsed(commit) == Ok::<MlsMessage, MlsError>(message) ==> (MlsGroup::applies(
            before,
            commit,
            after,
            None,
        ) <==> mls_processed(before, message, after, None)),
{
}

/// Law: a log records every commit that its group makes, under the next epoch and behind those that
/// the peer may still lack, and nothing where the group makes none.
pub proof fn log_records_every_commit<G: ExportSecret>(
    before: CommitLog<G>,
    after: CommitLog<G>,
    outcome: Result<Seq<u8>, GroupError>,
)
    requires
        before.inv(),
        before.has_room(),
        CommitLog::<G>::commits(before, after, outcome),
    ensures
        G::commits(before.group(), after.group(), outcome),
        after.state().checkpoint == before.state().checkpoint,
        match outcome {
            Ok(commit) => {
                &&& after.state().current_epoch == before.state().current_epoch + 1
                &&& after.pending() == before.pending().push(
                    (after.state().current_epoch, commit),
                )
            },
            Err(_) => after.state() == before.state() && after.pending() == before.pending(),
        },
{
    if let Ok(commit) = outcome {
        assert(after.pending() =~= before.pending().push((after.state().current_epoch, commit)));
    }
}

/// Law: a log does not come between its group and the peer: it exports what the group exports and
/// applies what the group applies, and forgets none of its own commits over it.
pub proof fn log_leaves_the_group_alone<G: ExportSecret>(
    before: CommitLog<G>,
    commit: Seq<u8>,
    after: CommitLog<G>,
    error: Option<GroupError>,
    label: Seq<u8>,
    context: Seq<u8>,
    len: nat,
)
    ensures
        before.exported(label, context, len) == before.group().exported(label, context, len),
        CommitLog::<G>::applies(before, commit, after, error) ==> G::applies(
            before.group(),
            commit,
            after.group(),
            error,
        ) && after.pending() == before.pending(),
{
}

/// Law: a new log has nothing pending; a report of more than was committed counts as a report of
/// everything, and one of less than is known changes nothing.
pub proof fn reports_out_of_range_are_clamped(log: LogState, reported: u64)
    requires
        log_wf(log),
    ensures
        log_wf(log_empty()),
        log_window(log_empty()) == Seq::<(u64, Seq<u8>)>::empty(),
        log_empty().current_epoch == 0,
        reported >= log.current_epoch ==> log_trimmed(log, reported).checkpoint == log.current_epoch
            && log_window(log_trimmed(log, reported)).len() == 0,
        reported <= log.checkpoint ==> log_trimmed(log, reported) == log,
        log_trimmed(log, reported).current_epoch == log.current_epoch,
{
    assert(log_window(log_empty()) =~= Seq::<(u64, Seq<u8>)>::empty());
    if reported <= log.checkpoint {
        assert(log_trimmed(log, reported).log =~= log.log);
    }
}

} // verus!
