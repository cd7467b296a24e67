//! QUIC packet protection and handshakes keyed by an MLS group.
//!
//! The transport parameters of a connection travel in the handshake as they do in any QUIC
//! handshake; the keys come from the epoch secrets of a group that both ends are members of. An
//! end that missed commits catches up from a transcript of them, which the peer embeds in its
//! handshake or sends ahead in datagrams of its own.

pub mod args;
pub mod baseline;
pub mod config;
pub mod control;
pub mod echo;
pub mod group;
pub mod header_key;
pub mod hkdf;
pub mod keys;
pub mod packet_key;
pub mod params;
pub mod preamble;
pub mod replay;
pub mod retry;
pub mod runner;
pub mod session;
pub mod side;
pub mod transcript;
pub mod wire;

pub use config::{MlsClientConfig, MlsServerConfig};
pub use control::ControlMessage;
pub use group::{CommitLog, ExportSecret, GroupError, MlsGroup, MlsMember};
pub use replay::{apply_commit_window, CommitWindowError, ResyncNeeded};
pub use session::{Handshake, MlsSession};
pub use side::Side;
pub use transcript::{decode_transcript, encode_transcript, TranscriptDecodeError};
