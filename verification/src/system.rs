//! Signals and standard input, by the numbers of the machine.

use vstd::prelude::*;

verus! {

use crate::state::{elapsed, time_between, EndState, ExitState, Time};

/// The numbers of the signals that have a name here.
#[derive(Clone, Copy, Debug, PartialEq, Eq)]
pub struct SignalNumbers {
    pub hup: i32,
    pub int: i32,
    pub quit: i32,
    pub ill: i32,
    pub trap: i32,
    pub abrt: i32,
    pub bus: i32,
    pub fpe: i32,
    pub kill: i32,
    pub usr1: i32,
    pub segv: i32,
    pub usr2: i32,
    pub pipe: i32,
    pub alrm: i32,
    pub term: i32,
}

/// Whether `sig` is the number of one of the signals on which Unix systems agree.
pub open spec fn is_common_signal(sig: int) -> bool {
    sig == 1 || sig == 2 || sig == 3 || sig == 4 || sig == 6 || sig == 8 || sig == 9 || sig == 11
        || sig == 14 || sig == 15
}

/// Whether `sig` can be the number of one of the other signals.
pub open spec fn is_uncommon_signal(sig: int) -> bool {
    1 <= sig <= 31 && !is_common_signal(sig)
}

/// Whether Unix systems can have the numbers `n`.
pub open spec fn are_unix_numbers(n: SignalNumbers) -> bool {
    &&& n.hup == 1 && n.int == 2 && n.quit == 3 && n.ill == 4 && n.abrt == 6
    &&& n.fpe == 8 && n.kill == 9 && n.segv == 11 && n.alrm == 14 && n.term == 15
    &&& is_uncommon_signal(n.trap as int) && is_uncommon_signal(n.bus as int)
    &&& is_uncommon_signal(n.usr1 as int) && is_uncommon_signal(n.usr2 as int)
    &&& is_uncommon_signal(n.pipe as int)
    &&& n.trap != n.bus && n.trap != n.usr1 && n.trap != n.usr2 && n.trap != n.pipe
    &&& n.bus != n.usr1 && n.bus != n.usr2 && n.bus != n.pipe
    &&& n.usr1 != n.usr2 && n.usr1 != n.pipe && n.usr2 != n.pipe
}

/// Reads the constants `SIGHUP`, `SIGINT` and so on of the libc crate.
///
/// Claimed of them: those ten on which Unix systems agree have the value that all
/// give them; the other five, which differ from system to system, are numbers up
/// to 31 apart from those ten and from each other.
#[verifier::external_body]
fn signal_numbers() -> (r: SignalNumbers)
    ensures
        are_unix_numbers(r),
{
    SignalNumbers {
        hup: libc::SIGHUP, int: libc::SIGINT, quit: libc::SIGQUIT, ill: libc::SIGILL,
        trap: libc::SIGTRAP, abrt: libc::SIGABRT, bus: libc::SIGBUS, fpe: libc::SIGFPE,
        kill: libc::SIGKILL, usr1: libc::SIGUSR1, segv: libc::SIGSEGV, usr2: libc::SIGUSR2,
        pipe: libc::SIGPIPE, alrm: libc::SIGALRM, term: libc::SIGTERM,
    }
}

/// The name of signal `sig` where the signals have the numbers `n`.
pub open spec fn signal_text(sig: int, n: SignalNumbers) -> Seq<char> {
    if sig == n.hup {
        "SIGHUP"@
    } else if sig == n.int {
        "SIGINT"@
    } else if sig == n.quit {
        "SIGQUIT"@
    } else if sig == n.ill {
        "SIGILL"@
    } else if sig == n.trap {
        "SIGTRAP"@
    } else if sig == n.abrt {
        "SIGABRT"@
    } else if sig == n.bus {
        "SIGBUS"@
    } else if sig == n.fpe {
        "SIGFPE"@
    } else if sig == n.kill {
        "SIGKILL"@
    } else if sig == n.usr1 {
        "SIGUSR1"@
    } else if sig == n.segv {
        "SIGSEGV"@
    } else if sig == n.usr2 {
        "SIGUSR2"@
    } else if sig == n.pipe {
        "SIGPIPE"@
    } else if sig == n.alrm {
        "SIGALRM"@
    } else if sig == n.term {
        "SIGTERM"@
    } else {
        "Unknown signal"@
    }
}

/// The name of signal `sig` where the signals have the numbers `n`.
pub fn signal_name(sig: i32, n: &SignalNumbers) -> (r: &'static str)
    ensures
        r@ == signal_text(sig as int, *n),
{
    if sig == n.hup {
        "SIGHUP"
    } else if sig == n.int {
        "SIGINT"
    } else if sig == n.quit {
        "SIGQUIT"
    } else if sig == n.ill {
        "SIGILL"
    } else if sig == n.trap {
        "SIGTRAP"
    } else if sig == n.abrt {
        "SIGABRT"
    } else if sig == n.bus {
        "SIGBUS"
    } else if sig == n.fpe {
        "SIGFPE"
    } else if sig == n.kill {
        "SIGKILL"
    } else if sig == n.usr1 {
        "SIGUSR1"
    } else if sig == n.segv {
        "SIGSEGV"
    } else if sig == n.usr2 {
        "SIGUSR2"
    } else if sig == n.pipe {
        "SIGPIPE"
    } else if sig == n.alrm {
        "SIGALRM"
    } else if sig == n.term {
        "SIGTERM"
    } else {
        "Unknown signal"
    }
}

/// The name of signal `sig` on this machine.
pub fn signal_to_str(sig: i32) -> (r: &'static str)
    ensures
        exists|n: SignalNumbers|
            are_unix_numbers(n) && r@ == #[trigger] signal_text(sig as int, n),
        sig == 1 ==> r@ == "SIGHUP"@,
        sig == 2 ==> r@ == "SIGINT"@,
        sig == 3 ==> r@ == "SIGQUIT"@,
        sig == 4 ==> r@ == "SIGILL"@,
        sig == 6 ==> r@ == "SIGABRT"@,
        sig == 8 ==> r@ == "SIGFPE"@,
        sig == 9 ==> r@ == "SIGKILL"@,
        sig == 11 ==> r@ == "SIGSEGV"@,
        sig == 14 ==> r@ == "SIGALRM"@,
        sig == 15 ==> r@ == "SIGTERM"@,
        sig < 1 || sig > 31 ==> r@ == "Unknown signal"@,
{
    let n = signal_numbers();
    assert(are_unix_numbers(n));
    signal_name(sig, &n)
}

/// What was found out about standard input.
#[derive(Clone, Copy, Debug, PartialEq, Eq)]
pub struct StdinProbe {
    /// What asking for the flags of the file descriptor returned.
    pub fd_flags: i32,
    /// The error number that was set by it.
    pub errno: Option<i32>,
    pub is_terminal: bool,
    /// What polling the file descriptor returned.
    pub poll_result: i32,
    /// The events that polling reported.
    pub revents: i16,
}

/// The numbers by which a system reports trouble with input.
#[derive(Clone, Copy, Debug, PartialEq, Eq)]
pub struct InputNumbers {
    /// The error of a file descriptor that is not open.
    pub ebadf: i32,
    /// The event of a terminal that has hung up.
    pub pollhup: i16,
}

/// Reads the constants `EBADF` and `POLLHUP` of the libc crate.
///
/// Claimed of them: `POLLHUP` is not 0, so that there is a bit for it in what polling
/// reports. Which bit that is, and the value of `EBADF`, differ from system to
/// system.
#[verifier::external_body]
fn input_numbers() -> (r: InputNumbers)
    ensures
        r.pollhup != 0,
{
    InputNumbers { ebadf: libc::EBADF, pollhup: libc::POLLHUP }
}

/// Why nothing can be read from standard input.
pub open spec fn input_problem(probe: StdinProbe, n: InputNumbers) -> Option<Seq<char>> {
    if probe.fd_flags == -1 && probe.errno == Some(n.ebadf) {
        Some("stdin file descriptor is closed"@)
    } else if !probe.is_terminal {
        Some("stdin is no longer attached to a terminal"@)
    } else if probe.poll_result > 0 && (probe.revents & n.pollhup) != 0 {
        Some("stdin PTY has hung up (POLLHUP)"@)
    } else {
        None
    }
}

/// The characters of an optional text.
pub open spec fn str_view(text: Option<&str>) -> Option<Seq<char>> {
    match text {
        Some(t) => Some(t@),
        None => None,
    }
}

/// Why nothing can be read from standard input, on a system with the numbers `n`.
pub fn find_input_problem(probe: &StdinProbe, n: &InputNumbers) -> (r: Option<&'static str>)
    ensures
        str_view(r) == input_problem(*probe, *n),
{
    let closed = probe.fd_flags == -1 && match probe.errno {
        Some(e) => e == n.ebadf,
        None => false,
    };
    if closed {
        Some("stdin file descriptor is closed")
    } else if !probe.is_terminal {
        Some("stdin is no longer attached to a terminal")
    } else if probe.poll_result > 0 && (probe.revents & n.pollhup) != 0 {
        Some("stdin PTY has hung up (POLLHUP)")
    } else {
        None
    }
}

/// Why nothing can be read from standard input on this machine.
pub fn stdin_unavailable_reason(probe: &StdinProbe) -> (r: Option<&'static str>)
    ensures
        exists|n: InputNumbers|
            n.pollhup != 0 && str_view(r) == #[trigger] input_problem(*probe, n),
        probe.fd_flags != -1 && !probe.is_terminal ==> str_view(r) == Some(
            "stdin is no longer attached to a terminal"@,
        ),
        !probe.is_terminal ==> r is Some,
        probe.fd_flags != -1 && probe.is_terminal && probe.poll_result <= 0 ==> r is None,
        probe.fd_flags != -1 && probe.is_terminal && probe.revents == 0 ==> r is None,
        probe.fd_flags != -1 && probe.is_terminal && probe.poll_result > 0 && probe.revents == -1
            ==> str_view(r) == Some("stdin PTY has hung up (POLLHUP)"@),
{
    let n = input_numbers();
    let r = find_input_problem(probe, &n);
    assert(str_view(r) == input_problem(*probe, n));
    proof {
        let events = probe.revents;
        let hangup = n.pollhup;
        assert(events == -1i16 ==> (events & hangup) == hangup) by (bit_vector);
        assert(events == 0i16 ==> (events & hangup) == 0i16) by (bit_vector);
    }
    r
}

/// How long input that is still on its way is thrown away.
pub const DRAIN_TIME: Time = 150_000_000;

/// What asking for a command comes to.
#[derive(Debug, PartialEq, Eq)]
pub enum CommandStep {
    /// A session is run, and its end handed back.
    RunSession,
    /// This is how it ends, once input has been thrown away for a time, if any.
    Finish { exit_state: ExitState, drain_for: Option<Time> },
}

/// Asks for a command. Where nothing can be read from standard input, that is the
/// end of the file; else a session is run, and `session` is how it ended.
pub fn get_command(stdin_problem: Option<&'static str>, session: Option<EndState>) -> (r:
    CommandStep)
    ensures
        r == (match (stdin_problem, session) {
            (Some(_), _) => CommandStep::Finish { exit_state: ExitState::Eof, drain_for: None },
            (None, None) => CommandStep::RunSession,
            (None, Some(end)) => CommandStep::Finish {
                exit_state: end.exit_state,
                drain_for: if end.should_drain {
                    Some(DRAIN_TIME)
                } else {
                    None
                },
            },
        }),
{
    if stdin_problem.is_some() {
        return CommandStep::Finish { exit_state: ExitState::Eof, drain_for: None };
    }
    match session {
        Some(end) => {
            let drain_for: Option<Time> = if end.should_drain {
                Some(DRAIN_TIME)
            } else {
                None
            };
            CommandStep::Finish { exit_state: end.exit_state, drain_for }
        },
        None => CommandStep::RunSession,
    }
}

/// The kinds of input that can still be on its way when a session ends.
#[derive(Clone, Copy, Debug, PartialEq, Eq, Structural)]
pub enum InputKind {
    Mouse,
    FocusIn,
    FocusOut,
    ActivePositionReport,
    DeviceAttributes,
    /// What a later program should get.
    Other,
}

/// Whether input of this kind is thrown away when a session ends.
pub open spec fn is_drainable(kind: InputKind) -> bool {
    !(kind is Other)
}

/// Whether input of this kind is thrown away when a session ends.
pub fn is_drainable_event(kind: InputKind) -> (r: bool)
    ensures
        r == is_drainable(kind),
{
    match kind {
        InputKind::Other => false,
        _ => true,
    }
}

/// What came of waiting for input.
#[derive(Clone, Copy, Debug, PartialEq, Eq, Structural)]
pub enum DrainOutcome {
    /// An event was thrown away.
    Drained,
    /// Nothing came.
    Quiet,
    Failed,
}

/// How long to wait for more input to throw away; `None` where enough was waited,
/// or there is nothing more to wait for.
pub fn drain_shutdown_events(
    last: Option<DrainOutcome>,
    start: Time,
    now: Time,
    timeout: Time,
) -> (r: Option<Time>)
    ensures
        r == (if (last is None || last == Some(DrainOutcome::Drained))
            && time_between(start, now) < timeout {
            Some((timeout - time_between(start, now)) as Time)
        } else {
            None
        }),
{
    let goes_on = match last {
        None => true,
        Some(DrainOutcome::Drained) => true,
        Some(_) => false,
    };
    let waited: Time = elapsed(start, now);
    if goes_on && waited < timeout {
        Some(timeout - waited)
    } else {
        None
    }
}

/// Each signal has its own name, and a number that is none of theirs has none.
pub proof fn lemma_each_signal_has_its_name(n: SignalNumbers, sig: int)
    requires
        are_unix_numbers(n),
    ensures
        signal_text(n.hup as int, n) == "SIGHUP"@,
        signal_text(n.int as int, n) == "SIGINT"@,
        signal_text(n.quit as int, n) == "SIGQUIT"@,
        signal_text(n.ill as int, n) == "SIGILL"@,
        signal_text(n.trap as int, n) == "SIGTRAP"@,
        signal_text(n.abrt as int, n) == "SIGABRT"@,
        signal_text(n.bus as int, n) == "SIGBUS"@,
        signal_text(n.fpe as int, n) == "SIGFPE"@,
        signal_text(n.kill as int, n) == "SIGKILL"@,
        signal_text(n.usr1 as int, n) == "SIGUSR1"@,
        signal_text(n.segv as int, n) == "SIGSEGV"@,
        signal_text(n.usr2 as int, n) == "SIGUSR2"@,
        signal_text(n.pipe as int, n) == "SIGPIPE"@,
        signal_text(n.alrm as int, n) == "SIGALRM"@,
        signal_text(n.term as int, n) == "SIGTERM"@,
        sig < 1 || sig > 31 ==> signal_text(sig, n) == "Unknown signal"@,
{
}

/// Input can be read exactly where the file is open, belongs to a terminal, and that
/// terminal has not hung up. A file that is closed is told first, then one that belongs
/// to no terminal.
pub proof fn lemma_when_input_can_be_read(probe: StdinProbe, n: InputNumbers)
    ensures
        ({
            let is_closed = probe.fd_flags == -1 && probe.errno == Some(n.ebadf);
            let has_hung_up = probe.poll_result > 0 && (probe.revents & n.pollhup) != 0;
            &&& input_problem(probe, n) is None <==> !is_closed && probe.is_terminal
                && !has_hung_up
            &&& is_closed ==> input_problem(probe, n) == Some("stdin file descriptor is closed"@)
            &&& !is_closed && !probe.is_terminal ==> input_problem(probe, n) == Some(
                "stdin is no longer attached to a terminal"@,
            )
            &&& !is_closed && probe.is_terminal && has_hung_up ==> input_problem(probe, n) == Some(
                "stdin PTY has hung up (POLLHUP)"@,
            )
        }),
{
}

/// What the mouse, the focus and answers of the terminal leave behind is thrown away, and
/// nothing that a later program should get.
pub proof fn lemma_what_is_thrown_away(kind: InputKind)
    ensures
        is_drainable(kind) <==> kind is Mouse || kind is FocusIn || kind is FocusOut
            || kind is ActivePositionReport || kind is DeviceAttributes,
{
}

} // verus!
