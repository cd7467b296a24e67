use quic_mls::args::{parse_args, parse_decimal, parse_flag, peer_of_alice, ArgsError, Flag, Role};
use quic_mls::baseline::{
    client_start, client_step, mode_text, ClientAction, ClientStage, Entry, Outcome, Phase, Plan,
};
use quic_mls::echo::{
    accept_step, baseline_accept_step, baseline_stream_step, reply_limit, stream_step, AcceptAction, AcceptEvent, StreamAction, StreamEvent,
    BASELINE_REQUEST_LIMIT, REQUEST_LIMIT,
};
use quic_mls::runner::{
    commit_rows, deadline_of, idle_timeout, ready_step, remaining, Alice, AliceAction,
    AliceEvent, AliceStage, Bob, BobAction, BobEvent, BobStage, ReadyAction, Row, RowEvent, Timing,
    GRACE,
};

fn words(line: &str) -> Vec<String> {
    line.split_whitespace().map(|w| w.to_string()).collect()
}

fn parse(line: &str) -> Result<quic_mls::args::Args, ArgsError> {
    let argv = words(line);
    let is_addr: Vec<bool> = argv.iter().map(|a| a.contains(':')).collect();
    parse_args(&argv, &is_addr)
}

fn row(event: RowEvent, epoch: u64, bytes: u64) -> Row {
    Row { event, epoch, bytes }
}

#[test]
fn command_line_has_defaults() {
    let args = parse("--role alice --bind 10.0.0.1:5").unwrap();
    assert_eq!(args.role, Role::Alice);
    assert_eq!(args.bind_addr, "10.0.0.1:5");
    assert_eq!(args.peer_addr, None);
    assert_eq!(args.bootstrap_dir, "/tmp/testbed-bootstrap");
    assert_eq!(args.commit_interval, 30);
    assert_eq!(args.duration, 120);
    assert_eq!(args.out_path, "testbed-runner.csv");
    assert_eq!(args.blackout_on, 0);
    assert_eq!(args.blackout_off, 0);
    assert_eq!(args.report_timeout, 10);
    assert_eq!(args.transcript_max_bytes, usize::MAX);
}

#[test]
fn command_line_sets_every_field() {
    let args = parse(
        "--peer b:2 --role bob --bind a:1 --bootstrap-dir d --commit-interval-secs 1 \
         --duration-secs 2 --out o --blackout-on-secs 3 --blackout-off-secs 4 \
         --report-timeout-secs +5 --transcript-max-bytes 006",
    )
    .unwrap();
    assert_eq!(args.role, Role::Bob);
    assert_eq!(args.bind_addr, "a:1");
    assert_eq!(args.peer_addr.as_deref(), Some("b:2"));
    assert_eq!(args.bootstrap_dir, "d");
    assert_eq!(args.out_path, "o");
    assert_eq!(
        (args.commit_interval, args.duration, args.blackout_on, args.blackout_off),
        (1, 2, 3, 4)
    );
    assert_eq!((args.report_timeout, args.transcript_max_bytes), (5, 6));
}

#[test]
fn last_value_of_a_flag_counts() {
    let args = parse("--role bob --bind a:1 --role alice --bind c:3").unwrap();
    assert_eq!(args.role, Role::Alice);
    assert_eq!(args.bind_addr, "c:3");
}

#[test]
fn bad_command_lines_are_refused() {
    assert_eq!(parse("").unwrap_err(), ArgsError::MissingRole);
    assert_eq!(parse("--role bob").unwrap_err(), ArgsError::MissingBind);
    assert_eq!(parse("--bind a:1").unwrap_err(), ArgsError::MissingRole);
    assert_eq!(parse("--role carol").unwrap_err(), ArgsError::BadValue(Flag::Role, 1));
    assert_eq!(parse("--role bob --bind x").unwrap_err(), ArgsError::BadValue(Flag::Bind, 3));
    assert_eq!(parse("--peer x").unwrap_err(), ArgsError::BadValue(Flag::Peer, 1));
    assert_eq!(parse("--role bob verbose").unwrap_err(), ArgsError::UnknownFlag(2));
    assert_eq!(parse("--out").unwrap_err(), ArgsError::MissingValue(Flag::Out));
    assert_eq!(
        parse("--duration-secs -1").unwrap_err(),
        ArgsError::BadValue(Flag::DurationSecs, 1)
    );
    assert_eq!(
        parse("--duration-secs 18446744073709551616").unwrap_err(),
        ArgsError::BadValue(Flag::DurationSecs, 1)
    );
}

#[test]
fn flags_are_known_by_their_text() {
    for flag in [
        Flag::Role,
        Flag::Bind,
        Flag::Peer,
        Flag::BootstrapDir,
        Flag::CommitIntervalSecs,
        Flag::DurationSecs,
        Flag::Out,
        Flag::BlackoutOnSecs,
        Flag::BlackoutOffSecs,
        Flag::ReportTimeoutSecs,
        Flag::TranscriptMaxBytes,
    ] {
        assert_eq!(parse_flag(&flag.text().to_string()), Some(flag));
    }
    assert_eq!(parse_flag(&"--Role".to_string()), None);
}

#[test]
fn decimals_parse_like_integers() {
    for text in ["0", "7", "+7", "0010", "255", "256", "+", "", "-1", " 1", "1 ", "1_0", "a", "++1", "é"] {
        assert_eq!(parse_decimal(text, 255), text.parse::<u8>().ok().map(u64::from), "{text}");
        assert_eq!(parse_decimal(text, u64::MAX), text.parse::<u64>().ok(), "{text}");
    }
    for text in ["18446744073709551615", "18446744073709551616", "99999999999999999999999"] {
        assert_eq!(parse_decimal(text, u64::MAX), text.parse::<u64>().ok(), "{text}");
    }
}

#[test]
fn waiting_ends_with_a_newer_cycle_or_the_timeout() {
    assert_eq!(ready_step(Some(" 3\n"), 2, 0, 10), ReadyAction::Seen(3));
    assert_eq!(ready_step(Some("2"), 2, 0, 10), ReadyAction::Sleep);
    assert_eq!(ready_step(Some("2"), 2, 10, 10), ReadyAction::TimedOut(2));
    assert_eq!(ready_step(Some("x"), 2, 9, 10), ReadyAction::Sleep);
    assert_eq!(ready_step(None, 2, 9, 10), ReadyAction::Sleep);
    assert_eq!(ready_step(None, 7, 11, 10), ReadyAction::TimedOut(7));
    assert_eq!(ready_step(Some("9"), 2, 11, 10), ReadyAction::Seen(9));
    assert_eq!(ready_step(Some("\u{3000}\t 3\u{a0}\r\n"), 2, 0, 10), ReadyAction::Seen(3));
    assert_eq!(ready_step(Some("3 4"), 2, 0, 10), ReadyAction::Sleep);
    assert_eq!(ready_step(Some("\u{200b}3"), 2, 0, 10), ReadyAction::Sleep);
    assert_eq!(ready_step(Some(" \n "), 2, 0, 10), ReadyAction::Sleep);
}

#[test]
fn times_never_run_over() {
    assert_eq!(remaining(10, 3), 7);
    assert_eq!(remaining(3, 10), 0);
    assert_eq!(deadline_of(100, 10, 20), 30);
    assert_eq!(deadline_of(100, 90, 20), 100);
    assert_eq!(deadline_of(100, 120, 20), 100);
    assert_eq!(deadline_of(100, 1, u128::MAX), 100);
    assert_eq!(idle_timeout(10, 5), 15 + GRACE);
    assert_eq!(GRACE, 30_000_000_000);
}

#[test]
fn alice_runs_through_a_blackout() {
    let t = Timing { duration: 100, blackout_on: 20, blackout_off: 30 };
    let mut a = Alice::new();
    assert_eq!(a.step(&t, AliceEvent::Top { elapsed: 0 }), AliceAction::AwaitReady { after: 0 });
    assert_eq!(a.step(&t, AliceEvent::Ready { cycle: 1 }), AliceAction::Connect);
    assert_eq!(
        a.step(&t, AliceEvent::Opened),
        AliceAction::Record { row: row(RowEvent::ZeroRttAvailable, 0, 0) }
    );
    assert_eq!(
        a.step(&t, AliceEvent::Connected { accepted: true }),
        AliceAction::EnterPhase { row: row(RowEvent::Handshake0RttAccepted, 0, 0) }
    );
    assert_eq!(a.step(&t, AliceEvent::PhaseStarted { elapsed: 5 }), AliceAction::CheckPhase);
    assert_eq!(
        a.step(&t, AliceEvent::Check { elapsed: 5, phase_elapsed: 0 }),
        AliceAction::AwaitTick { deadline: 25 }
    );
    assert_eq!(
        a.step(&t, AliceEvent::Ticked { elapsed: 6, phase_elapsed: 1 }),
        AliceAction::Commit { epoch: 1 }
    );
    assert_eq!(a.step(&t, AliceEvent::DeadlineReached), AliceAction::Close);
    assert_eq!(
        a.step(&t, AliceEvent::Closed { elapsed: 26 }),
        AliceAction::EnterPhase { row: row(RowEvent::BlackoutStart, 1, 0) }
    );
    assert_eq!(a.step(&t, AliceEvent::PhaseStarted { elapsed: 26 }), AliceAction::CheckPhase);
    assert_eq!(a.deadline, 56);
    assert_eq!(
        a.step(&t, AliceEvent::Ticked { elapsed: 30, phase_elapsed: 4 }),
        AliceAction::CommitOffline { row: row(RowEvent::CommitOffline, 2, 0) }
    );
    assert_eq!(
        a.step(&t, AliceEvent::Check { elapsed: 56, phase_elapsed: 30 }),
        AliceAction::Again { row: row(RowEvent::BlackoutEnd, 2, 0) }
    );
    assert_eq!(a.step(&t, AliceEvent::Top { elapsed: 57 }), AliceAction::AwaitReady { after: 1 });
    assert_eq!(a.step(&t, AliceEvent::Ready { cycle: 2 }), AliceAction::SendWindow);
    assert_eq!(
        a.step(&t, AliceEvent::WindowSent { bytes: 300 }),
        AliceAction::Reconnect { row: row(RowEvent::HandshakeTranscriptEmbedded, 2, 300) }
    );
    assert_eq!(
        a.step(&t, AliceEvent::TimedOut),
        AliceAction::Again { row: row(RowEvent::ReconnectAttemptTimedOut, 2, 0) }
    );
    assert_eq!(a.stage, AliceStage::Idle);
    assert_eq!(a.step(&t, AliceEvent::Top { elapsed: 70 }), AliceAction::AwaitReady { after: 2 });
    assert_eq!(a.step(&t, AliceEvent::Ready { cycle: 2 }), AliceAction::SendWindow);
    a.step(&t, AliceEvent::WindowSent { bytes: 0 });
    assert_eq!(
        a.step(&t, AliceEvent::Failed),
        AliceAction::Again { row: row(RowEvent::ReconnectAttemptFailed, 2, 0) }
    );
    a.step(&t, AliceEvent::Top { elapsed: 80 });
    a.step(&t, AliceEvent::Ready { cycle: 3 });
    a.step(&t, AliceEvent::WindowSent { bytes: 0 });
    assert_eq!(
        a.step(&t, AliceEvent::Connected { accepted: false }),
        AliceAction::EnterPhase { row: row(RowEvent::ReconnectHandshake0RttRejected, 0, 0) }
    );
    a.step(&t, AliceEvent::PhaseStarted { elapsed: 90 });
    assert_eq!(a.deadline, 100);
    assert_eq!(
        a.step(&t, AliceEvent::Ticked { elapsed: 100, phase_elapsed: 10 }),
        AliceAction::Close
    );
    assert_eq!(
        a.step(&t, AliceEvent::Closed { elapsed: 101 }),
        AliceAction::Finish { row: row(RowEvent::Done, 2, 0) }
    );
    assert_eq!(a.step(&t, AliceEvent::Top { elapsed: 0 }), AliceAction::Ignore);
}

#[test]
fn alice_without_blackouts_stays_online_to_the_end() {
    let t = Timing { duration: 100, blackout_on: 0, blackout_off: 0 };
    let mut a = Alice::new();
    a.step(&t, AliceEvent::Top { elapsed: 0 });
    a.step(&t, AliceEvent::Ready { cycle: 0 });
    a.step(&t, AliceEvent::Connected { accepted: false });
    a.step(&t, AliceEvent::PhaseStarted { elapsed: 30 });
    assert_eq!((a.phase_len, a.deadline), (70, 100));
    a.step(&t, AliceEvent::DeadlineReached);
    assert_eq!(
        a.step(&t, AliceEvent::Closed { elapsed: 40 }),
        AliceAction::Finish { row: row(RowEvent::Done, 0, 0) }
    );

    let mut late = Alice::new();
    assert_eq!(
        late.step(&t, AliceEvent::Top { elapsed: 100 }),
        AliceAction::Finish { row: row(RowEvent::Done, 0, 0) }
    );
    let mut unlucky = Alice::new();
    unlucky.step(&t, AliceEvent::Top { elapsed: 0 });
    unlucky.step(&t, AliceEvent::Ready { cycle: 1 });
    assert_eq!(unlucky.step(&t, AliceEvent::Failed), AliceAction::Abort);
}

#[test]
fn bob_serves_cycle_after_cycle() {
    let t = Timing { duration: 100, blackout_on: 20, blackout_off: 30 };
    let mut b = Bob::new();
    assert_eq!(
        b.step(&t, BobEvent::Top { elapsed: 0 }),
        BobAction::Announce { cycle: 1, renew_config: false }
    );
    assert_eq!(
        b.step(&t, BobEvent::Announced { elapsed: 1 }),
        BobAction::Accept { timeout: 99 + GRACE }
    );
    assert_eq!(b.step(&t, BobEvent::Incoming), BobAction::OpenControl);
    assert_eq!(
        b.step(&t, BobEvent::Control { early: true }),
        BobAction::Confirm {
            first: row(RowEvent::ZeroRttAvailable, 0, 0),
            second: row(RowEvent::ControlStream0Rtt, 0, 0)
        }
    );
    assert_eq!(
        b.step(&t, BobEvent::Confirmed { epoch: 4 }),
        BobAction::Serve { row: row(RowEvent::HandshakeConfirmed, 4, 0) }
    );
    assert_eq!(b.step(&t, BobEvent::Closed), BobAction::Again);
    assert_eq!(
        b.step(&t, BobEvent::Top { elapsed: 50 }),
        BobAction::Announce { cycle: 2, renew_config: true }
    );
    b.step(&t, BobEvent::Announced { elapsed: 120 });
    b.step(&t, BobEvent::Incoming);
    assert_eq!(b.step(&t, BobEvent::NoControl), BobAction::Abandon);
    assert_eq!(b.stage, BobStage::Idle);
    b.step(&t, BobEvent::Top { elapsed: 60 });
    assert_eq!(
        b.step(&t, BobEvent::Announced { elapsed: 120 }),
        BobAction::Accept { timeout: GRACE }
    );
    b.step(&t, BobEvent::Incoming);
    assert_eq!(
        b.step(&t, BobEvent::Control { early: false }),
        BobAction::Confirm {
            first: row(RowEvent::ZeroRttAvailable, 0, 0),
            second: row(RowEvent::ControlStream1Rtt, 0, 0)
        }
    );
    assert_eq!(
        b.step(&t, BobEvent::Confirmed { epoch: 5 }),
        BobAction::Serve { row: row(RowEvent::ReconnectHandshakeConfirmed, 5, 0) }
    );
    b.step(&t, BobEvent::Closed);
    assert_eq!(
        b.step(&t, BobEvent::Top { elapsed: 100 }),
        BobAction::Finish { row: row(RowEvent::Done, 0, 0) }
    );
    assert_eq!(b.step(&t, BobEvent::Incoming), BobAction::Ignore);
}

#[test]
fn bob_without_blackouts_serves_once() {
    let t = Timing { duration: 100, blackout_on: 0, blackout_off: 0 };
    let mut b = Bob::new();
    b.step(&t, BobEvent::Top { elapsed: 0 });
    b.step(&t, BobEvent::Announced { elapsed: 0 });
    b.step(&t, BobEvent::Incoming);
    b.step(&t, BobEvent::Control { early: true });
    b.step(&t, BobEvent::Confirmed { epoch: 0 });
    assert_eq!(
        b.step(&t, BobEvent::Closed),
        BobAction::Finish { row: row(RowEvent::Done, 0, 0) }
    );
    let mut lonely = Bob::new();
    lonely.step(&t, BobEvent::Top { elapsed: 0 });
    lonely.step(&t, BobEvent::Announced { elapsed: 0 });
    assert_eq!(
        lonely.step(&t, BobEvent::NoIncoming),
        BobAction::Finish { row: row(RowEvent::Done, 0, 0) }
    );
}

#[test]
fn rows_are_named() {
    assert_eq!(RowEvent::ZeroRttAvailable.text(), "zero_rtt_available");
    assert_eq!(RowEvent::ReconnectHandshake0RttAccepted.text(), "reconnect_handshake_0rtt_accepted");
    assert_eq!(RowEvent::CommitCpu.text(), "commit_cpu");
    assert_eq!(RowEvent::CommitNet.text(), "commit_net");
    assert_eq!(RowEvent::Done.text(), "done");
}

fn course(plan: &Plan, outcome: Outcome) -> Vec<ClientAction> {
    let (mut stage, mut action) = client_start();
    let mut actions = vec![action];
    while stage != ClientStage::Finished {
        (stage, action) = client_step(plan, stage, outcome);
        actions.push(action);
    }
    actions
}

#[test]
fn baseline_client_reconnects_after_blackouts() {
    let plan = Plan { reconnects: 1, blackout_ms: 40, rtt_ms: 10, no_resumption: false };
    let entry = |phase, iteration| Entry { phase, iteration, resumed: true, zero_rtt_accepted: true };
    assert_eq!(
        course(&plan, Outcome::Resumed(true)),
        vec![
            ClientAction::Connect { full: true },
            ClientAction::Record { entry: entry(Phase::InitialHandshake, 0) },
            ClientAction::Sleep { ms: 2020 },
            ClientAction::Close { phase: Phase::InitialHandshake },
            ClientAction::Sleep { ms: 40 },
            ClientAction::Connect { full: false },
            ClientAction::Record { entry: entry(Phase::Reconnect, 1) },
            ClientAction::Sleep { ms: 2020 },
            ClientAction::Close { phase: Phase::Reconnect },
            ClientAction::Finish,
        ]
    );
}

#[test]
fn baseline_client_without_resumption_does_not_settle() {
    let plan = Plan { reconnects: 1, blackout_ms: 0, rtt_ms: 10, no_resumption: true };
    let entry = |phase, iteration| Entry { phase, iteration, resumed: false, zero_rtt_accepted: false };
    assert_eq!(
        course(&plan, Outcome::Full),
        vec![
            ClientAction::Connect { full: true },
            ClientAction::Record { entry: entry(Phase::InitialHandshake, 0) },
            ClientAction::Close { phase: Phase::InitialHandshake },
            ClientAction::Connect { full: true },
            ClientAction::Record { entry: entry(Phase::Reconnect, 1) },
            ClientAction::Close { phase: Phase::Reconnect },
            ClientAction::Finish,
        ]
    );
    assert_eq!(course(&Plan { reconnects: 0, ..plan }, Outcome::Full).len(), 4);
}

#[test]
fn baseline_records_are_named() {
    assert_eq!(mode_text(true), "0rtt");
    assert_eq!(mode_text(false), "full-1rtt");
    assert_eq!(Phase::InitialHandshake.text(), "initial_handshake");
    assert_eq!(Phase::Reconnect.text(), "reconnect");
    assert_eq!(Phase::InitialHandshake.close_reason(), "initial-done");
    assert_eq!(Phase::Reconnect.close_reason(), "reconnect-done");
    let plan = Plan { reconnects: 0, blackout_ms: 0, rtt_ms: 0, no_resumption: false };
    let (_, action) = client_step(&plan, ClientStage::Connecting(3), Outcome::Resumed(false));
    assert_eq!(
        action,
        ClientAction::Record {
            entry: Entry {
                phase: Phase::Reconnect,
                iteration: 3,
                resumed: true,
                zero_rtt_accepted: false
            }
        }
    );
}

#[test]
fn echo_sends_back_what_it_read() {
    assert_eq!(accept_step(AcceptEvent::Opened), AcceptAction::Serve);
    assert_eq!(accept_step(AcceptEvent::ClosedByPeer), AcceptAction::Stop { warn: false });
    assert_eq!(accept_step(AcceptEvent::Lost), AcceptAction::Stop { warn: true });
    assert_eq!(
        stream_step(StreamEvent::Read(b"Hello, QUIC!".to_vec())),
        StreamAction::Write(b"Hello, QUIC!".to_vec())
    );
    assert_eq!(stream_step(StreamEvent::Written), StreamAction::Finish);
    assert_eq!(stream_step(StreamEvent::Finished), StreamAction::Stop { warn: false });
    for failure in [StreamEvent::ReadFailed, StreamEvent::WriteFailed, StreamEvent::FinishFailed] {
        assert_eq!(stream_step(failure), StreamAction::Stop { warn: true });
    }
    assert_eq!(reply_limit(12), 76);
}

#[test]
fn alice_needs_a_peer() {
    let with = parse("--role alice --bind 10.0.0.1:5 --peer 10.0.0.2:6").unwrap();
    assert_eq!(peer_of_alice(&with).map(|p| p.as_str()), Some("10.0.0.2:6"));
    let without = parse("--role alice --bind 10.0.0.1:5").unwrap();
    assert_eq!(peer_of_alice(&without), None);
}

#[test]
fn commit_has_two_rows() {
    let (cpu, net) = commit_rows(7, 1200);
    assert_eq!(cpu, row(RowEvent::CommitCpu, 7, 0));
    assert_eq!(net, row(RowEvent::CommitNet, 7, 1200));
}

#[test]
fn baseline_server_replies_whatever_happens() {
    assert_eq!(BASELINE_REQUEST_LIMIT, 64 * 1024);
    assert_eq!(REQUEST_LIMIT, 1024 * 1024);
    assert_eq!(baseline_accept_step(AcceptEvent::Opened), AcceptAction::Serve);
    for end in [AcceptEvent::ClosedByPeer, AcceptEvent::Lost] {
        assert_eq!(baseline_accept_step(end), AcceptAction::Stop { warn: false });
    }
    let data = vec![1u8, 2, 3];
    assert_eq!(
        baseline_stream_step(StreamEvent::Read(data.clone())),
        StreamAction::Write(data)
    );
    assert_eq!(baseline_stream_step(StreamEvent::ReadFailed), StreamAction::Write(Vec::new()));
    for event in [StreamEvent::Written, StreamEvent::WriteFailed] {
        assert_eq!(baseline_stream_step(event), StreamAction::Finish);
    }
    for event in [StreamEvent::Finished, StreamEvent::FinishFailed] {
        assert_eq!(baseline_stream_step(event), StreamAction::Stop { warn: false });
    }
}

#[test]
fn command_line_errors_have_words() {
    let message = |line: &str| parse(line).unwrap_err().message(&words(line));
    assert_eq!(message("--role bob --colour red"), "unknown flag: --colour");
    assert_eq!(message("--role bob --out"), "--out requires a value");
    assert_eq!(message("--role carol"), "--role must be alice|bob, got carol");
    assert_eq!(message("--bind here"), "bad --bind addr");
    assert_eq!(message("--peer there"), "bad --peer addr");
    assert_eq!(message("--duration-secs soon"), "bad --duration-secs");
    assert_eq!(message("--transcript-max-bytes -1"), "bad --transcript-max-bytes");
    assert_eq!(message("--bind 10.0.0.1:5"), "--role alice|bob is required");
    assert_eq!(message("--role bob"), "--bind IP:PORT is required");
}
