//! The command line of the testbed runner: pairs of a flag and its value.

use vstd::prelude::*;
use vstd::string::StringExecFns;

verus! {

/// Who this process is.
#[derive(Debug, Clone, Copy, PartialEq, Eq, Structural)]
pub enum Role {
    /// Commits, and connects.
    Alice,
    /// Follows, and listens.
    Bob,
}

/// A flag of the command line.
#[derive(Debug, Clone, Copy, PartialEq, Eq, Structural)]
pub enum Flag {
    Role,
    Bind,
    Peer,
    BootstrapDir,
    CommitIntervalSecs,
    DurationSecs,
    Out,
    BlackoutOnSecs,
    BlackoutOffSecs,
    ReportTimeoutSecs,
    TranscriptMaxBytes,
}

/// Why a command line was refused. Positions count from zero.
#[derive(Debug, Clone, Copy, PartialEq, Eq, Structural)]
pub enum ArgsError {
    /// The argument at this position is no flag.
    UnknownFlag(usize),
    /// The last argument is this flag, and its value is missing.
    MissingValue(Flag),
    /// The argument at this position is no value for this flag.
    BadValue(Flag, usize),
    /// There is no role.
    MissingRole,
    /// There is no address to bind.
    MissingBind,
}

/// The command line, with times in seconds.
#[derive(Debug)]
pub struct Args {
    pub role: Role,
    pub bind_addr: String,
    pub peer_addr: Option<String>,
    pub bootstrap_dir: String,
    pub commit_interval: u64,
    pub duration: u64,
    pub out_path: String,
    pub blackout_on: u64,
    pub blackout_off: u64,
    pub report_timeout: u64,
    pub transcript_max_bytes: usize,
}

/// What a command line sets, with its texts taken by their contents.
pub struct Settings {
    pub role: Option<Role>,
    pub bind_addr: Option<Seq<char>>,
    pub peer_addr: Option<Seq<char>>,
    pub bootstrap_dir: Seq<char>,
    pub commit_interval: u64,
    pub duration: u64,
    pub out_path: Seq<char>,
    pub blackout_on: u64,
    pub blackout_off: u64,
    pub report_timeout: u64,
    pub transcript_max_bytes: usize,
}

/// A flag in words.
pub open spec fn flag_text(flag: Flag) -> Seq<char> {
    match flag {
        Flag::Role => "--role"@,
        Flag::Bind => "--bind"@,
        Flag::Peer => "--peer"@,
        Flag::BootstrapDir => "--bootstrap-dir"@,
        Flag::CommitIntervalSecs => "--commit-interval-secs"@,
        Flag::DurationSecs => "--duration-secs"@,
        Flag::Out => "--out"@,
        Flag::BlackoutOnSecs => "--blackout-on-secs"@,
        Flag::BlackoutOffSecs => "--blackout-off-secs"@,
        Flag::ReportTimeoutSecs => "--report-timeout-secs"@,
        Flag::TranscriptMaxBytes => "--transcript-max-bytes"@,
    }
}

/// The flag that a text is.
pub open spec fn flag_of(text: Seq<char>) -> Option<Flag> {
    if text == "--role"@ {
        Some(Flag::Role)
    } else if text == "--bind"@ {
        Some(Flag::Bind)
    } else if text == "--peer"@ {
        Some(Flag::Peer)
    } else if text == "--bootstrap-dir"@ {
        Some(Flag::BootstrapDir)
    } else if text == "--commit-interval-secs"@ {
        Some(Flag::CommitIntervalSecs)
    } else if text == "--duration-secs"@ {
        Some(Flag::DurationSecs)
    } else if text == "--out"@ {
        Some(Flag::Out)
    } else if text == "--blackout-on-secs"@ {
        Some(Flag::BlackoutOnSecs)
    } else if text == "--blackout-off-secs"@ {
        Some(Flag::BlackoutOffSecs)
    } else if text == "--report-timeout-secs"@ {
        Some(Flag::ReportTimeoutSecs)
    } else if text == "--transcript-max-bytes"@ {
        Some(Flag::TranscriptMaxBytes)
    } else {
        None
    }
}

/// Whether every byte is a decimal digit.
pub open spec fn all_digits(s: Seq<u8>) -> bool {
    forall|i: int| 0 <= i < s.len() ==> 0x30 <= #[trigger] s[i] <= 0x39
}

/// The number that decimal digits stand for.
pub open spec fn digits_value(s: Seq<u8>) -> nat
    decreases s.len(),
{
    if s.len() == 0 {
        0
    } else {
        digits_value(s.drop_last()) * 10 + (s.last() - 0x30) as nat
    }
}

/// The number that a text stands for: decimal digits, at least one, perhaps behind a plus sign.
pub open spec fn decimal(s: Seq<u8>) -> Option<nat> {
    let digits = if s.len() > 0 && s[0] == 0x2b {
        s.skip(1)
    } else {
        s
    };
    if digits.len() > 0 && all_digits(digits) {
        Some(digits_value(digits))
    } else {
        None
    }
}

/// The number that a text stands for, if it is at most `max`.
pub open spec fn decimal_upto(s: Seq<u8>, max: nat) -> Option<nat> {
    match decimal(s) {
        Some(v) => if v <= max {
            Some(v)
        } else {
            None
        },
        None => None,
    }
}

/// The number that a text stands for, if it fits in 64 bits.
pub open spec fn number(text: Seq<char>) -> Option<nat> {
    decimal_upto(vstd::utf8::encode_utf8(text), u64::MAX as nat)
}

/// What an empty command line sets.
pub open spec fn default_settings() -> Settings {
    Settings {
        role: None,
        bind_addr: None,
        peer_addr: None,
        bootstrap_dir: "/tmp/testbed-bootstrap"@,
        commit_interval: 30,
        duration: 120,
        out_path: "testbed-runner.csv"@,
        blackout_on: 0,
        blackout_off: 0,
        report_timeout: 10,
        transcript_max_bytes: usize::MAX,
    }
}

/// The settings with a flag's value in place, or nothing where it is no value for the flag.
/// `is_addr` tells whether the value is a socket address.
pub open spec fn with_flag(s: Settings, flag: Flag, value: Seq<char>, is_addr: bool) -> Option<
    Settings,
> {
    match flag {
        Flag::Role => if value == "alice"@ {
            Some(Settings { role: Some(Role::Alice), ..s })
        } else if value == "bob"@ {
            Some(Settings { role: Some(Role::Bob), ..s })
        } else {
            None
        },
        Flag::Bind => if is_addr {
            Some(Settings { bind_addr: Some(value), ..s })
        } else {
            None
        },
        Flag::Peer => if is_addr {
            Some(Settings { peer_addr: Some(value), ..s })
        } else {
            None
        },
        Flag::BootstrapDir => Some(Settings { bootstrap_dir: value, ..s }),
        Flag::CommitIntervalSecs => match number(value) {
            Some(n) => Some(Settings { commit_interval: n as u64, ..s }),
            None => None,
        },
        Flag::DurationSecs => match number(value) {
            Some(n) => Some(Settings { duration: n as u64, ..s }),
            None => None,
        },
        Flag::Out => Some(Settings { out_path: value, ..s }),
        Flag::BlackoutOnSecs => match number(value) {
            Some(n) => Some(Settings { blackout_on: n as u64, ..s }),
            None => None,
        },
        Flag::BlackoutOffSecs => match number(value) {
            Some(n) => Some(Settings { blackout_off: n as u64, ..s }),
            None => None,
        },
        Flag::ReportTimeoutSecs => match number(value) {
            Some(n) => Some(Settings { report_timeout: n as u64, ..s }),
            None => None,
        },
        Flag::TranscriptMaxBytes => match decimal_upto(
            vstd::utf8::encode_utf8(value),
            usize::MAX as nat,
        ) {
            Some(n) => Some(Settings { transcript_max_bytes: n as usize, ..s }),
            None => None,
        },
    }
}

/// The settings after the arguments from position `i` on, or the first thing wrong with them.
pub open spec fn scanned(argv: Seq<Seq<char>>, is_addr: Seq<bool>, i: int, s: Settings) -> Result<
    Settings,
    ArgsError,
>
    decreases argv.len() - i,
{
    if i >= argv.len() {
        Ok(s)
    } else {
        match flag_of(argv[i]) {
            None => Err(ArgsError::UnknownFlag(i as usize)),
            Some(flag) => if i + 1 >= argv.len() {
                Err(ArgsError::MissingValue(flag))
            } else {
                match with_flag(s, flag, argv[i + 1], is_addr[i + 1]) {
                    None => Err(ArgsError::BadValue(flag, (i + 1) as usize)),
                    Some(next) => scanned(argv, is_addr, i + 2, next),
                }
            },
        }
    }
}

/// What `parse_args` returns.
pub open spec fn parsed(argv: Seq<Seq<char>>, is_addr: Seq<bool>) -> Result<Settings, ArgsError> {
    match scanned(argv, is_addr, 0, default_settings()) {
        Err(e) => Err(e),
        Ok(s) => if s.role is None {
            Err(ArgsError::MissingRole)
        } else if s.bind_addr is None {
            Err(ArgsError::MissingBind)
        } else {
            Ok(s)
        },
    }
}

/// Arguments with their texts taken by their contents.
pub open spec fn texts(argv: Seq<String>) -> Seq<Seq<char>> {
    Seq::new(argv.len(), |i: int| argv[i]@)
}

/// Whether the position that an error names, if it names one, lies in a command line of this
/// length.
pub open spec fn position_within(error: ArgsError, len: nat) -> bool {
    match error {
        ArgsError::UnknownFlag(at) | ArgsError::BadValue(_, at) => at < len,
        _ => true,
    }
}

/// An error in words.
pub open spec fn args_message(error: ArgsError, argv: Seq<Seq<char>>) -> Seq<char> {
    match error {
        ArgsError::UnknownFlag(at) => "unknown flag: "@ + argv[at as int],
        ArgsError::MissingValue(flag) => flag_text(flag) + " requires a value"@,
        ArgsError::BadValue(flag, at) => match flag {
            Flag::Role => "--role must be alice|bob, got "@ + argv[at as int],
            Flag::Bind | Flag::Peer => "bad "@ + flag_text(flag) + " addr"@,
            _ => "bad "@ + flag_text(flag),
        },
        ArgsError::MissingRole => "--role alice|bob is required"@,
        ArgsError::MissingBind => "--bind IP:PORT is required"@,
    }
}

/// The settings that a parsed command line holds.
pub open spec fn settings_of(args: Args) -> Settings {
    Settings {
        role: Some(args.role),
        bind_addr: Some(args.bind_addr@),
        peer_addr: match args.peer_addr {
            Some(addr) => Some(addr@),
            None => None,
        },
        bootstrap_dir: args.bootstrap_dir@,
        commit_interval: args.commit_interval,
        duration: args.duration,
        out_path: args.out_path@,
        blackout_on: args.blackout_on,
        blackout_off: args.blackout_off,
        report_timeout: args.report_timeout,
        transcript_max_bytes: args.transcript_max_bytes,
    }
}

/// Law: a flag and its value at the end of a good command line change what the flag sets, whatever
/// was set before, and nothing else. So of a flag given twice the last value counts.
pub proof fn last_flag_counts(
    argv: Seq<Seq<char>>,
    is_addr: Seq<bool>,
    i: int,
    s: Settings,
    flag: Flag,
    text: Seq<char>,
    value: Seq<char>,
    addr: bool,
)
    requires
        0 <= i,
        argv.len() == is_addr.len(),
        argv.len() + 1 <= usize::MAX,
        flag_of(text) == Some(flag),
        scanned(argv, is_addr, i, s) is Ok,
        i <= argv.len(),
    ensures
        scanned(argv.push(text).push(value), is_addr.push(false).push(addr), i, s) == (
        match with_flag(scanned(argv, is_addr, i, s)->Ok_0, flag, value, addr) {
            Some(next) => Ok::<Settings, ArgsError>(next),
            None => Err::<Settings, ArgsError>(
                ArgsError::BadValue(flag, (argv.len() + 1) as usize),
            ),
        }),
    decreases argv.len() - i,
{
    let more = argv.push(text).push(value);
    let more_addr = is_addr.push(false).push(addr);
    if i == argv.len() {
        assert(more[i] == text);
        assert(more[i + 1] == value);
        reveal_with_fuel(scanned, 2);
    } else {
        assert(more[i] == argv[i]);
        assert(more[i + 1] == argv[i + 1]);
        assert(more_addr[i + 1] == is_addr[i + 1]);
        let found = flag_of(argv[i]).unwrap();
        let next = with_flag(s, found, argv[i + 1], is_addr[i + 1]).unwrap();
        last_flag_counts(argv, is_addr, i + 2, next, flag, text, value, addr);
    }
}

/// Law: each flag is known by its own text, and by no other.
pub proof fn flags_are_known_by_their_text(flag: Flag, text: Seq<char>)
    ensures
        flag_of(text) == Some(flag) <==> text == flag_text(flag),
        flag_text(Flag::Role) == "--role"@,
        flag_text(Flag::Bind) == "--bind"@,
        flag_text(Flag::Peer) == "--peer"@,
        flag_text(Flag::BootstrapDir) == "--bootstrap-dir"@,
        flag_text(Flag::CommitIntervalSecs) == "--commit-interval-secs"@,
        flag_text(Flag::DurationSecs) == "--duration-secs"@,
        flag_text(Flag::Out) == "--out"@,
        flag_text(Flag::BlackoutOnSecs) == "--blackout-on-secs"@,
        flag_text(Flag::BlackoutOffSecs) == "--blackout-off-secs"@,
        flag_text(Flag::ReportTimeoutSecs) == "--report-timeout-secs"@,
        flag_text(Flag::TranscriptMaxBytes) == "--transcript-max-bytes"@,
{
    reveal_strlit("--role");
    assert("--role"@.len() == 6);
    reveal_strlit("--bind");
    assert("--bind"@.len() == 6);
    reveal_strlit("--peer");
    assert("--peer"@.len() == 6);
    reveal_strlit("--bootstrap-dir");
    assert("--bootstrap-dir"@.len() == 15);
    reveal_strlit("--commit-interval-secs");
    assert("--commit-interval-secs"@.len() == 22);
    reveal_strlit("--duration-secs");
    assert("--duration-secs"@.len() == 15);
    reveal_strlit("--out");
    assert("--out"@.len() == 5);
    reveal_strlit("--blackout-on-secs");
    assert("--blackout-on-secs"@.len() == 18);
    reveal_strlit("--blackout-off-secs");
    assert("--blackout-off-secs"@.len() == 19);
    reveal_strlit("--report-timeout-secs");
    assert("--report-timeout-secs"@.len() == 21);
    reveal_strlit("--transcript-max-bytes");
    assert("--transcript-max-bytes"@.len() == 22);
    assert("--role"@[2] != "--bind"@[2]);
    assert("--role"@[2] != "--peer"@[2]);
    assert("--bind"@[2] != "--peer"@[2]);
    assert("--bootstrap-dir"@[2] != "--duration-secs"@[2]);
    assert("--commit-interval-secs"@[2] != "--transcript-max-bytes"@[2]);
}

/// Law: a number is one or more decimal digits, perhaps behind one plus sign: a digit more takes
/// the number tenfold and adds its own value, and anything else is no number. A number beyond the
/// limit is refused.
pub proof fn numbers_are_decimal(s: Seq<u8>, b: u8, max: nat)
    ensures
        decimal(Seq::empty()) is None,
        decimal(seq![b]) == if 0x30 <= b <= 0x39 {
            Some((b - 0x30) as nat)
        } else {
            None
        },
        s.len() > 0 && s[0] != 0x2b ==> decimal(s.push(b)) == (match decimal(s) {
            Some(v) => if 0x30 <= b <= 0x39 {
                Some((10 * v + (b - 0x30)) as nat)
            } else {
                None
            },
            None => None,
        }),
        s.len() > 0 && s[0] != 0x2b ==> decimal(seq![0x2bu8] + s) == decimal(s),
        s.len() > 0 && s[0] == 0x2b ==> decimal(seq![0x2bu8] + s) is None,
        decimal_upto(s, max) == (match decimal(s) {
            Some(v) => if v <= max {
                Some(v)
            } else {
                None
            },
            None => None,
        }),
{
    reveal_with_fuel(digits_value, 2);
    let one = seq![b];
    assert(one.drop_last() =~= Seq::empty());
    assert(one[0] == b);
    if b == 0x2b {
        assert(one.skip(1) =~= Seq::empty());
    } else if 0x30 <= b <= 0x39 {
        assert(all_digits(one));
    }
    if s.len() > 0 {
        let more = s.push(b);
        let signed = seq![0x2bu8] + s;
        assert(more.drop_last() =~= s);
        assert(signed.skip(1) =~= s);
        assert(more[0] == s[0]);
        assert(more[s.len() as int] == b);
        if all_digits(more) {
            assert forall|i: int| 0 <= i < s.len() implies 0x30 <= #[trigger] s[i] <= 0x39 by {
                assert(more[i] == s[i]);
            }
        }
        if all_digits(s) && 0x30 <= b <= 0x39 {
            assert forall|i: int| 0 <= i < more.len() implies 0x30 <= #[trigger] more[i]
                <= 0x39 by {
                if i < s.len() {
                    assert(more[i] == s[i]);
                }
            }
        }
        if s[0] == 0x2b {
            assert(!all_digits(s));
        }
    }
}

/// Law: a flag sets its own field to its value, and no other field.
pub proof fn each_flag_sets_its_own_field(
    s: Settings,
    flag: Flag,
    value: Seq<char>,
    is_addr: bool,
    next: Settings,
)
    requires
        with_flag(s, flag, value, is_addr) == Some(next),
    ensures
        flag != Flag::Role ==> next.role == s.role,
        flag != Flag::Bind ==> next.bind_addr == s.bind_addr,
        flag != Flag::Peer ==> next.peer_addr == s.peer_addr,
        flag != Flag::BootstrapDir ==> next.bootstrap_dir == s.bootstrap_dir,
        flag != Flag::CommitIntervalSecs ==> next.commit_interval == s.commit_interval,
        flag != Flag::DurationSecs ==> next.duration == s.duration,
        flag != Flag::Out ==> next.out_path == s.out_path,
        flag != Flag::BlackoutOnSecs ==> next.blackout_on == s.blackout_on,
        flag != Flag::BlackoutOffSecs ==> next.blackout_off == s.blackout_off,
        flag != Flag::ReportTimeoutSecs ==> next.report_timeout == s.report_timeout,
        flag != Flag::TranscriptMaxBytes ==> next.transcript_max_bytes == s.transcript_max_bytes,
        flag == Flag::Role ==> next.role == Some(Role::Alice) && value == "alice"@ || next.role
            == Some(Role::Bob) && value == "bob"@,
        flag == Flag::Bind ==> is_addr && next.bind_addr == Some(value),
        flag == Flag::Peer ==> is_addr && next.peer_addr == Some(value),
        flag == Flag::BootstrapDir ==> next.bootstrap_dir == value,
        flag == Flag::Out ==> next.out_path == value,
        flag == Flag::CommitIntervalSecs ==> decimal(vstd::utf8::encode_utf8(value)) == Some(
            next.commit_interval as nat,
        ),
        flag == Flag::DurationSecs ==> decimal(vstd::utf8::encode_utf8(value)) == Some(
            next.duration as nat,
        ),
        flag == Flag::BlackoutOnSecs ==> decimal(vstd::utf8::encode_utf8(value)) == Some(
            next.blackout_on as nat,
        ),
        flag == Flag::BlackoutOffSecs ==> decimal(vstd::utf8::encode_utf8(value)) == Some(
            next.blackout_off as nat,
        ),
        flag == Flag::ReportTimeoutSecs ==> decimal(vstd::utf8::encode_utf8(value)) == Some(
            next.report_timeout as nat,
        ),
        flag == Flag::TranscriptMaxBytes ==> decimal(vstd::utf8::encode_utf8(value)) == Some(
            next.transcript_max_bytes as nat,
        ),
{
}

/// Law: a value is refused only where it is none for its flag: a role that is neither `alice` nor
/// `bob`, an address that is none, and a number that is none or is too large.
pub proof fn only_bad_values_are_refused(
    s: Settings,
    flag: Flag,
    value: Seq<char>,
    is_addr: bool,
)
    ensures
        with_flag(s, flag, value, is_addr) is None <==> match flag {
            Flag::Role => value != "alice"@ && value != "bob"@,
            Flag::Bind | Flag::Peer => !is_addr,
            Flag::BootstrapDir | Flag::Out => false,
            Flag::TranscriptMaxBytes => match decimal(vstd::utf8::encode_utf8(value)) {
                Some(v) => v > usize::MAX,
                None => true,
            },
            _ => match decimal(vstd::utf8::encode_utf8(value)) {
                Some(v) => v > u64::MAX,
                None => true,
            },
        },
{
}

/// Law: no arguments change nothing; an argument left over at the end of a good command line is
/// refused, for its missing value if it is a flag, and else as unknown, at its own position.
pub proof fn arguments_come_in_pairs(
    argv: Seq<Seq<char>>,
    is_addr: Seq<bool>,
    i: int,
    s: Settings,
    text: Seq<char>,
    addr: bool,
)
    requires
        0 <= i <= argv.len(),
        argv.len() == is_addr.len(),
        argv.len() <= usize::MAX,
        scanned(argv, is_addr, i, s) is Ok,
    ensures
        scanned(argv, is_addr, argv.len() as int, s) == Ok::<Settings, ArgsError>(s),
        scanned(argv.push(text), is_addr.push(addr), i, s) == Err::<Settings, ArgsError>(
            match flag_of(text) {
                Some(flag) => ArgsError::MissingValue(flag),
                None => ArgsError::UnknownFlag(argv.len() as usize),
            },
        ),
    decreases argv.len() - i,
{
    let more = argv.push(text);
    if i == argv.len() {
        assert(more[i] == text);
    } else {
        assert(more[i] == argv[i]);
        assert(more[i + 1] == argv[i + 1]);
        assert(is_addr.push(addr)[i + 1] == is_addr[i + 1]);
        let found = flag_of(argv[i]).unwrap();
        let next = with_flag(s, found, argv[i + 1], is_addr[i + 1]).unwrap();
        arguments_come_in_pairs(argv, is_addr, i + 2, next, text, addr);
    }
}

/// Law: the first fault of a command line is the one that is reported: what follows it does not
/// matter, unless the fault is a value that is still missing.
pub proof fn first_fault_is_reported(
    argv: Seq<Seq<char>>,
    is_addr: Seq<bool>,
    i: int,
    s: Settings,
    text: Seq<char>,
    addr: bool,
)
    requires
        0 <= i,
        argv.len() == is_addr.len(),
        scanned(argv, is_addr, i, s) matches Err(e) && e !is MissingValue,
    ensures
        scanned(argv.push(text), is_addr.push(addr), i, s) == scanned(argv, is_addr, i, s),
    decreases argv.len() - i,
{
    let more = argv.push(text);
    assert(more[i] == argv[i]);
    if flag_of(argv[i]) is Some {
        assert(more[i + 1] == argv[i + 1]);
        assert(is_addr.push(addr)[i + 1] == is_addr[i + 1]);
        let found = flag_of(argv[i]).unwrap();
        if with_flag(s, found, argv[i + 1], is_addr[i + 1]) is Some {
            let next = with_flag(s, found, argv[i + 1], is_addr[i + 1]).unwrap();
            first_fault_is_reported(argv, is_addr, i + 2, next, text, addr);
        }
    }
}

/// Law: a command line needs a role and an address to bind, in this order, and nothing else; what
/// it does not set has its default.
pub proof fn role_and_address_are_needed(argv: Seq<Seq<char>>, is_addr: Seq<bool>, s: Settings)
    requires
        scanned(argv, is_addr, 0, default_settings()) == Ok::<Settings, ArgsError>(s),
    ensures
        parsed(argv, is_addr) == Ok::<Settings, ArgsError>(s) <==> s.role is Some && s.bind_addr
            is Some,
        parsed(argv, is_addr) == Err::<Settings, ArgsError>(ArgsError::MissingRole) <==> s.role
            is None,
        parsed(argv, is_addr) == Err::<Settings, ArgsError>(ArgsError::MissingBind) <==> s.role
            is Some && s.bind_addr is None,
        argv.len() == 0 ==> {
            &&& s.role is None
            &&& s.bind_addr is None
            &&& s.peer_addr is None
            &&& s.bootstrap_dir == "/tmp/testbed-bootstrap"@
            &&& s.commit_interval == 30
            &&& s.duration == 120
            &&& s.out_path == "testbed-runner.csv"@
            &&& s.blackout_on == 0
            &&& s.blackout_off == 0
            &&& s.report_timeout == 10
            &&& s.transcript_max_bytes == usize::MAX
        },
{
}

/// Law: arguments are viewed one for one and in their order.
pub proof fn arguments_are_viewed_one_by_one(argv: Seq<String>, argument: String)
    ensures
        texts(Seq::empty()).len() == 0,
        texts(argv.push(argument)) == texts(argv).push(argument@),
{
    assert(texts(argv.push(argument)) =~= texts(argv).push(argument@));
}

/// Law: the words of a refusal name what was wrong: the argument that is no flag or no role, or the
/// flag whose value is missing or bad.
pub proof fn refusals_name_their_cause(argv: Seq<Seq<char>>, at: usize, flag: Flag)
    requires
        at < argv.len(),
    ensures
        args_message(ArgsError::UnknownFlag(at), argv) == "unknown flag: "@ + argv[at as int],
        args_message(ArgsError::BadValue(Flag::Role, at), argv)
            == "--role must be alice|bob, got "@ + argv[at as int],
        args_message(ArgsError::MissingValue(flag), argv) == flag_text(flag)
            + " requires a value"@,
        flag == Flag::Bind || flag == Flag::Peer ==> args_message(
            ArgsError::BadValue(flag, at),
            argv,
        ) == "bad "@ + flag_text(flag) + " addr"@,
        flag != Flag::Role && flag != Flag::Bind && flag != Flag::Peer ==> args_message(
            ArgsError::BadValue(flag, at),
            argv,
        ) == "bad "@ + flag_text(flag),
{
}

impl Flag {
    /// The flag in words.
    pub fn text(&self) -> (t: &'static str)
        ensures
            t@ == flag_text(*self),
    {
        match self {
            Flag::Role => "--role",
            Flag::Bind => "--bind",
            Flag::Peer => "--peer",
            Flag::BootstrapDir => "--bootstrap-dir",
            Flag::CommitIntervalSecs => "--commit-interval-secs",
            Flag::DurationSecs => "--duration-secs",
            Flag::Out => "--out",
            Flag::BlackoutOnSecs => "--blackout-on-secs",
            Flag::BlackoutOffSecs => "--blackout-off-secs",
            Flag::ReportTimeoutSecs => "--report-timeout-secs",
            Flag::TranscriptMaxBytes => "--transcript-max-bytes",
        }
    }
}

impl ArgsError {
    /// The error in words, about the command line that it came from.
    pub fn message(&self, argv: &[String]) -> (text: String)
        requires
            position_within(*self, argv@.len()),
        ensures
            text@ == args_message(*self, texts(argv@)),
    {
        match self {
            ArgsError::UnknownFlag(at) => "unknown flag: ".to_owned().concat(argv[*at].as_str()),
            ArgsError::MissingValue(flag) => flag.text().to_owned().concat(" requires a value"),
            ArgsError::BadValue(flag, at) => match flag {
                Flag::Role => {
                    "--role must be alice|bob, got ".to_owned().concat(argv[*at].as_str())
                },
                Flag::Bind | Flag::Peer => "bad ".to_owned().concat(flag.text()).concat(" addr"),
                _ => "bad ".to_owned().concat(flag.text()),
            },
            ArgsError::MissingRole => "--role alice|bob is required".to_owned(),
            ArgsError::MissingBind => "--bind IP:PORT is required".to_owned(),
        }
    }
}

/// Whether two texts are the same.
fn same(text: &String, other: &str) -> (yes: bool)
    ensures
        yes == (text@ == other@),
{
    let owned: String = other.to_owned();
    *text == owned
}

/// The flag that a text is.
pub fn parse_flag(text: &String) -> (r: Option<Flag>)
    ensures
        r == flag_of(text@),
{
    if same(text, "--role") {
        Some(Flag::Role)
    } else if same(text, "--bind") {
        Some(Flag::Bind)
    } else if same(text, "--peer") {
        Some(Flag::Peer)
    } else if same(text, "--bootstrap-dir") {
        Some(Flag::BootstrapDir)
    } else if same(text, "--commit-interval-secs") {
        Some(Flag::CommitIntervalSecs)
    } else if same(text, "--duration-secs") {
        Some(Flag::DurationSecs)
    } else if same(text, "--out") {
        Some(Flag::Out)
    } else if same(text, "--blackout-on-secs") {
        Some(Flag::BlackoutOnSecs)
    } else if same(text, "--blackout-off-secs") {
        Some(Flag::BlackoutOffSecs)
    } else if same(text, "--report-timeout-secs") {
        Some(Flag::ReportTimeoutSecs)
    } else if same(text, "--transcript-max-bytes") {
        Some(Flag::TranscriptMaxBytes)
    } else {
        None
    }
}

/// More digits do not make a smaller number.
proof fn lemma_digits_value_mono(s: Seq<u8>, k: int)
    requires
        0 <= k <= s.len(),
        all_digits(s),
    ensures
        digits_value(s.take(k)) <= digits_value(s),
    decreases s.len(),
{
    if k < s.len() {
        assert forall|i: int| 0 <= i < s.drop_last().len() implies 0x30
            <= #[trigger] s.drop_last()[i] <= 0x39 by {
            assert(s.drop_last()[i] == s[i]);
        }
        lemma_digits_value_mono(s.drop_last(), k);
        assert(s.drop_last().take(k) =~= s.take(k));
    } else {
        assert(s.take(k) =~= s);
    }
}

/// The number that a text stands for, if it is at most `max`.
pub fn parse_decimal(text: &str, max: u64) -> (r: Option<u64>)
    ensures
        match r {
            Some(v) => decimal_upto(vstd::utf8::encode_utf8(text@), max as nat) == Some(v as nat),
            None => decimal_upto(vstd::utf8::encode_utf8(text@), max as nat) is None,
        },
{
    let bytes = text.as_bytes();
    let start: usize = if bytes.len() > 0 && bytes[0] == 0x2b {
        1
    } else {
        0
    };
    let ghost digits = bytes@.skip(start as int);
    proof {
        assert(bytes@ == vstd::utf8::encode_utf8(text@));
        if start == 0 {
            assert(digits =~= bytes@);
        }
    }
    if start == bytes.len() {
        return None;
    }
    let mut value: u64 = 0;
    let mut i: usize = start;
    proof {
        assert(digits.take(0) =~= Seq::empty());
    }
    while i < bytes.len()
        invariant
            start <= i <= bytes@.len(),
            digits == bytes@.skip(start as int),
            digits.len() > 0,
            value as nat == digits_value(digits.take(i - start)),
            value <= max,
            all_digits(digits.take(i - start)),
            decimal(bytes@) == (if all_digits(digits) {
                Some(digits_value(digits))
            } else {
                None
            }),
            bytes@ == vstd::utf8::encode_utf8(text@),
        decreases bytes@.len() - i,
    {
        let b: u8 = bytes[i];
        let ghost k = i - start;
        proof {
            assert(digits[k] == b);
            assert(digits.take(k + 1).drop_last() =~= digits.take(k));
        }
        if b < 0x30 || b > 0x39 {
            return None;
        }
        let d: u64 = (b - 0x30) as u64;
        if d > max || value > (max - d) / 10 {
            proof {
                if all_digits(digits) {
                    lemma_digits_value_mono(digits, k + 1);
                    assert(digits_value(digits.take(k + 1)) == value * 10 + d);
                }
            }
            return None;
        }
        value = value * 10 + d;
        proof {
            assert forall|j: int| 0 <= j < digits.take(k + 1).len() implies 0x30
                <= #[trigger] digits.take(k + 1)[j] <= 0x39 by {
                if j < k {
                    assert(digits.take(k)[j] == digits.take(k + 1)[j]);
                }
            }
        }
        i = i + 1;
    }
    proof {
        assert(digits.take(digits.len() as int) =~= digits);
    }
    Some(value)
}

/// A command line in the course of being read.
struct Draft {
    role: Option<Role>,
    bind_addr: Option<String>,
    peer_addr: Option<String>,
    bootstrap_dir: String,
    commit_interval: u64,
    duration: u64,
    out_path: String,
    blackout_on: u64,
    blackout_off: u64,
    report_timeout: u64,
    transcript_max_bytes: usize,
}

/// The settings that a draft holds.
spec fn draft_settings(d: Draft) -> Settings {
    Settings {
        role: d.role,
        bind_addr: match d.bind_addr {
            Some(addr) => Some(addr@),
            None => None,
        },
        peer_addr: match d.peer_addr {
            Some(addr) => Some(addr@),
            None => None,
        },
        bootstrap_dir: d.bootstrap_dir@,
        commit_interval: d.commit_interval,
        duration: d.duration,
        out_path: d.out_path@,
        blackout_on: d.blackout_on,
        blackout_off: d.blackout_off,
        report_timeout: d.report_timeout,
        transcript_max_bytes: d.transcript_max_bytes,
    }
}

/// Puts a flag's value in place. Returns whether it is a value for the flag.
fn set_flag(draft: &mut Draft, flag: Flag, value: &String, is_addr: bool) -> (ok: bool)
    ensures
        match with_flag(draft_settings(*old(draft)), flag, value@, is_addr) {
            Some(next) => ok && draft_settings(*final(draft)) == next,
            None => !ok,
        },
{
    match flag {
        Flag::Role => if same(value, "alice") {
            draft.role = Some(Role::Alice);
            true
        } else if same(value, "bob") {
            draft.role = Some(Role::Bob);
            true
        } else {
            false
        },
        Flag::Bind => {
            draft.bind_addr = Some(value.clone());
            is_addr
        },
        Flag::Peer => {
            draft.peer_addr = Some(value.clone());
            is_addr
        },
        Flag::BootstrapDir => {
            draft.bootstrap_dir = value.clone();
            true
        },
        Flag::Out => {
            draft.out_path = value.clone();
            true
        },
        Flag::TranscriptMaxBytes => match parse_decimal(value.as_str(), usize::MAX as u64) {
            Some(n) => {
                draft.transcript_max_bytes = n as usize;
                true
            },
            None => false,
        },
        Flag::CommitIntervalSecs => match parse_decimal(value.as_str(), u64::MAX) {
            Some(n) => {
                draft.commit_interval = n;
                true
            },
            None => false,
        },
        Flag::DurationSecs => match parse_decimal(value.as_str(), u64::MAX) {
            Some(n) => {
                draft.duration = n;
                true
            },
            None => false,
        },
        Flag::BlackoutOnSecs => match parse_decimal(value.as_str(), u64::MAX) {
            Some(n) => {
                draft.blackout_on = n;
                true
            },
            None => false,
        },
        Flag::BlackoutOffSecs => match parse_decimal(value.as_str(), u64::MAX) {
            Some(n) => {
                draft.blackout_off = n;
                true
            },
            None => false,
        },
        Flag::ReportTimeoutSecs => match parse_decimal(value.as_str(), u64::MAX) {
            Some(n) => {
                draft.report_timeout = n;
                true
            },
            None => false,
        },
    }
}

/// Parses a command line without the program's name. `is_addr` tells for each argument whether it
/// is a socket address.
pub fn parse_args(argv: &[String], is_addr: &[bool]) -> (r: Result<Args, ArgsError>)
    requires
        argv@.len() == is_addr@.len(),
    ensures
        match r {
            Ok(args) => parsed(texts(argv@), is_addr@) == Ok::<Settings, ArgsError>(
                settings_of(args),
            ),
            Err(e) => parsed(texts(argv@), is_addr@) == Err::<Settings, ArgsError>(e)
                && position_within(e, argv@.len()),
        },
{
    let mut draft = Draft {
        role: None,
        bind_addr: None,
        peer_addr: None,
        bootstrap_dir: "/tmp/testbed-bootstrap".to_owned(),
        commit_interval: 30,
        duration: 120,
        out_path: "testbed-runner.csv".to_owned(),
        blackout_on: 0,
        blackout_off: 0,
        report_timeout: 10,
        transcript_max_bytes: usize::MAX,
    };
    let ghost words = texts(argv@);
    let ghost all = scanned(words, is_addr@, 0, default_settings());
    let mut i: usize = 0;
    while i < argv.len()
        invariant
            i <= argv@.len(),
            argv@.len() == is_addr@.len(),
            words == texts(argv@),
            all == scanned(words, is_addr@, 0, default_settings()),
            all == scanned(words, is_addr@, i as int, draft_settings(draft)),
        decreases argv@.len() - i,
    {
        assert(words[i as int] == argv@[i as int]@);
        let flag = match parse_flag(&argv[i]) {
            Some(flag) => flag,
            None => return Err(ArgsError::UnknownFlag(i)),
        };
        if argv.len() - i == 1 {
            return Err(ArgsError::MissingValue(flag));
        }
        assert(words[i + 1] == argv@[i + 1]@);
        if !set_flag(&mut draft, flag, &argv[i + 1], is_addr[i + 1]) {
            return Err(ArgsError::BadValue(flag, i + 1));
        }
        i = i + 2;
    }
    let role = match draft.role {
        Some(role) => role,
        None => return Err(ArgsError::MissingRole),
    };
    let bind_addr = match draft.bind_addr {
        Some(addr) => addr,
        None => return Err(ArgsError::MissingBind),
    };
    Ok(
        Args {
            role,
            bind_addr,
            peer_addr: draft.peer_addr,
            bootstrap_dir: draft.bootstrap_dir,
            commit_interval: draft.commit_interval,
            duration: draft.duration,
            out_path: draft.out_path,
            blackout_on: draft.blackout_on,
            blackout_off: draft.blackout_off,
            report_timeout: draft.report_timeout,
            transcript_max_bytes: draft.transcript_max_bytes,
        },
    )
}

/// The peer that Alice connects to, where the command line names one. Alice cannot run without.
pub fn peer_of_alice(args: &Args) -> (r: Option<&String>)
    ensures
        match r {
            Some(peer) => args.peer_addr == Some(*peer),
            None => args.peer_addr is None,
        },
{
    match &args.peer_addr {
        Some(peer) => Some(peer),
        None => None,
    }
}

} // verus!
