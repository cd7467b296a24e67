# quic_mls

QUIC packet protection and handshakes keyed by an MLS group, verified with Verus.

Two members of an MLS group connect over QUIC. Their transport parameters travel in the handshake;
their keys come from the secrets that the group exports in its current epoch. Commits move the group
to the next epoch. A member that missed commits replays them from a transcript, which its peer embeds
in the handshake or sends ahead in UDP datagrams of its own.

## Layout

- `src/`: the library. Every function has a contract that Verus proves; calls into other crates
  (`mls-rs`, `quinn-proto`, `hkdf`, `aes-gcm`, `aes`) stand behind functions marked
  `external_body`, whose doc comments say what is taken on trust.
  - `wire`, `transcript`, `params`, `preamble`, `control`: the wire formats.
  - `group`, `replay`: groups and their members, the log of commits that a peer may lack, and the
    replay of it.
  - `hkdf`, `keys`, `packet_key`, `header_key`, `retry`: key derivation and protection.
  - `session`, `config`: the handshake and key updates of a connection.
  - `args`, `runner`, `baseline`, `echo`: the decisions of the programs in `app/`.
- `tests/`: tests of the library with the real crates linked.
- `app/`: the programs: sockets, timers, files, and the traits of `quinn`.

What the library promises beyond single calls stands in public proof functions, whose doc comments
start with "Law".
