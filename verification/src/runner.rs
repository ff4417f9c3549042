//! Whether the port of a service is free and whether its health endpoint has
//! come up.

use vstd::prelude::*;
use crate::text;
use crate::text_laws;

verus! {

/// What an attempt to bind a local port gave.
#[derive(Debug, Clone, PartialEq, Eq)]
pub enum PortProbe {
    Free,
    InUse,
    /// Binding failed otherwise; the text says how.
    Failed(String),
}

/// Why a local port cannot be used.
#[derive(Debug, Clone, PartialEq, Eq)]
pub enum PortError {
    InUse { port: u16 },
    Probing { port: u16, cause: String },
}

impl PortError {
    pub open spec fn text(self) -> Seq<char> {
        match self {
            PortError::InUse { port } => "local port "@ + text::decimal(port as nat)
                + " is already in use — likely a leftover process from a previous `ephemwork up` that didn't shut down cleanly.\n\n  Find it:  lsof -nP -iTCP:"@
                + text::decimal(port as nat)
                + " -sTCP:LISTEN\n  Kill it:  pkill -f \"uvicorn\\|node\\|<your run_command>\"\n  Then re-run ephemwork up."@,
            PortError::Probing { port, .. } => "probing 127.0.0.1:"@ + text::decimal(port as nat),
        }
    }

    /// The error in words.
    pub fn message(&self) -> (r: String)
        ensures
            r@ == self.text(),
    {
        match self {
            PortError::InUse { port } => {
                let mut out = "local port ".to_owned();
                text::push_decimal(&mut out, *port as u64);
                out.append(
                    " is already in use — likely a leftover process from a previous `ephemwork up` that didn't shut down cleanly.\n\n  Find it:  lsof -nP -iTCP:",
                );
                text::push_decimal(&mut out, *port as u64);
                out.append(
                    " -sTCP:LISTEN\n  Kill it:  pkill -f \"uvicorn\\|node\\|<your run_command>\"\n  Then re-run ephemwork up.",
                );
                out
            },
            PortError::Probing { port, .. } => {
                let mut out = "probing 127.0.0.1:".to_owned();
                text::push_decimal(&mut out, *port as u64);
                out
            },
        }
    }
}

/// Verify by an attempt to bind it that `127.0.0.1:port` was free. Run at the
/// top of the `up` flow so an orphan listener (e.g. a uvicorn from a previous
/// `ephemwork up` that was killed before its child reaped) surfaces a
/// clear error instead of letting the new spawn fail with a cryptic
/// "address already in use" deep inside uvicorn's startup.
pub fn assert_port_free(port: u16, probe: PortProbe) -> (r: Result<(), PortError>)
    ensures
        r == (match probe {
            PortProbe::Free => Ok::<(), PortError>(()),
            PortProbe::InUse => Err(PortError::InUse { port }),
            PortProbe::Failed(cause) => Err(PortError::Probing { port, cause }),
        }),
{
    match probe {
        PortProbe::Free => Ok(()),
        PortProbe::InUse => Err(PortError::InUse { port }),
        PortProbe::Failed(cause) => Err(PortError::Probing { port, cause }),
    }
}

/// A port that could not be reached in time.
#[derive(Debug, Clone, Copy, PartialEq, Eq)]
pub struct Unreachable {
    pub port: u16,
    pub timeout_ms: u64,
}

impl Unreachable {
    pub open spec fn text(self) -> Seq<char> {
        "port 127.0.0.1:"@ + text::decimal(self.port as nat)
            + " did not become reachable within "@ + text::duration_text(self.timeout_ms)
    }

    /// The error in words.
    pub fn message(&self) -> (r: String)
        ensures
            r@ == self.text(),
    {
        let mut out = "port 127.0.0.1:".to_owned();
        text::push_decimal(&mut out, self.port as u64);
        out.append(" did not become reachable within ");
        out.append(text::show_duration(self.timeout_ms).as_str());
        out
    }
}

/// What to make of an attempt to connect to a port.
#[derive(Debug, Clone, Copy, PartialEq, Eq)]
pub enum ReachVerdict {
    Reached,
    TryAgain,
    GiveUp(Unreachable),
}

/// Milliseconds between two attempts to connect.
pub const REACH_POLL_MS: u64 = 200;

/// Milliseconds that one attempt to connect may take.
pub const REACH_ATTEMPT_MS: u64 = 500;

/// Judges an attempt to connect to a local port. A connection counts also when
/// it is late; without one there is another attempt until the time is up.
pub fn judge_reach(port: u16, timeout_ms: u64, connected: bool, late: bool) -> (r: ReachVerdict)
    ensures
        r == (if connected {
            ReachVerdict::Reached
        } else if late {
            ReachVerdict::GiveUp(Unreachable { port, timeout_ms })
        } else {
            ReachVerdict::TryAgain
        }),
{
    if connected {
        ReachVerdict::Reached
    } else if late {
        ReachVerdict::GiveUp(Unreachable { port, timeout_ms })
    } else {
        ReachVerdict::TryAgain
    }
}

/// Where and how often to ask for health. Times are in milliseconds.
#[derive(Debug, Clone, PartialEq, Eq)]
pub struct HealthCheck<'a> {
    pub host: &'a str,
    pub port: u16,
    pub path: &'a str,
    pub overall_timeout_ms: u64,
    pub poll_interval_ms: u64,
}

impl<'a> HealthCheck<'a> {
    /// How long one attempt may take, in milliseconds: as long as all of them
    /// may, but at most two seconds and at least a tenth of one.
    pub open spec fn attempt_ms(self) -> int {
        if self.overall_timeout_ms > 2000 {
            2000
        } else if self.overall_timeout_ms < 100 {
            100
        } else {
            self.overall_timeout_ms as int
        }
    }

    /// How long one attempt may take, in milliseconds.
    pub fn attempt_timeout_ms(&self) -> (r: u64)
        ensures
            r == self.attempt_ms(),
    {
        if self.overall_timeout_ms > 2000 {
            2000
        } else if self.overall_timeout_ms < 100 {
            100
        } else {
            self.overall_timeout_ms
        }
    }

    /// What goes over the wire to ask for health.
    pub fn request(&self) -> (r: String)
        ensures
            r@ == "GET "@ + self.path@ + " HTTP/1.0\r\nHost: "@ + self.host@
                + "\r\nConnection: close\r\n\r\n"@,
    {
        let mut out = "GET ".to_owned();
        out.append(self.path);
        out.append(" HTTP/1.0\r\nHost: ");
        out.append(self.host);
        out.append("\r\nConnection: close\r\n\r\n");
        out
    }
}

/// Why a response has no status.
#[derive(Debug, Clone, PartialEq, Eq)]
pub enum StatusError {
    NotUtf8,
    Empty,
    MissingVersion,
    MissingCode,
    BadCode { code: String },
}

impl StatusError {
    pub open spec fn text(self) -> Seq<char> {
        match self {
            StatusError::NotUtf8 => "response was not valid UTF-8"@,
            StatusError::Empty => "empty response"@,
            StatusError::MissingVersion => "missing version"@,
            StatusError::MissingCode => "missing status code"@,
            StatusError::BadCode { code } => "parsing status code "@ + text::quoted(code@),
        }
    }

    /// The error in words.
    pub fn message(&self) -> (r: String)
        ensures
            r@ == self.text(),
    {
        match self {
            StatusError::NotUtf8 => "response was not valid UTF-8".to_owned(),
            StatusError::Empty => "empty response".to_owned(),
            StatusError::MissingVersion => "missing version".to_owned(),
            StatusError::MissingCode => "missing status code".to_owned(),
            StatusError::BadCode { code } => {
                let mut out = "parsing status code ".to_owned();
                out.append(text::quote(code.as_str()).as_str());
                out
            },
        }
    }
}

/// `answer` is the status of the response: the second word of its first line,
/// where that is a number of sixteen bits.
pub open spec fn status_of(response: Seq<u8>, answer: Result<u16, StatusError>) -> bool {
    if !vstd::utf8::valid_utf8(response) {
        answer == Err::<u16, StatusError>(StatusError::NotUtf8)
    } else {
        match text::first_line(vstd::utf8::decode_utf8(response)) {
            None => answer == Err::<u16, StatusError>(StatusError::Empty),
            Some(line) => {
                let words = text::words(line);
                if words.len() < 1 {
                    answer == Err::<u16, StatusError>(StatusError::MissingVersion)
                } else if words.len() < 2 {
                    answer == Err::<u16, StatusError>(StatusError::MissingCode)
                } else {
                    match text::number(words[1], u16::MAX as nat) {
                        Some(n) => answer == Ok::<u16, StatusError>(n as u16),
                        None => answer matches Err(StatusError::BadCode { code }) && code@
                            == words[1],
                    }
                }
            },
        }
    }
}

/// Pure parser for the HTTP/1.x status line.
pub fn parse_status_code(response: &[u8]) -> (r: Result<u16, StatusError>)
    ensures
        status_of(response@, r),
{
    let head = match text::utf8(response) {
        Some(s) => s,
        None => {
            return Err(StatusError::NotUtf8);
        },
    };
    let chars = text::chars_of(head);
    if chars.len() == 0 {
        return Err(StatusError::Empty);
    }
    let lines = text::split_lines(chars.as_slice());
    assert(text::views(lines@)[0] == lines@[0]@);
    let words = text::split_words(lines[0]);
    if words.len() < 1 {
        return Err(StatusError::MissingVersion);
    }
    if words.len() < 2 {
        return Err(StatusError::MissingCode);
    }
    assert(text::views(words@)[1] == words@[1]@);
    match text::parse_number(words[1], u16::MAX as u64) {
        Some(n) => Ok(n as u16),
        None => Err(StatusError::BadCode { code: text::string_of(words[1]) }),
    }
}

/// Why a service is not healthy.
#[derive(Debug, Clone, PartialEq, Eq)]
pub enum HealthError {
    Status(u16),
    /// The attempt failed; the text says how.
    Attempt(String),
    TimedOut,
}

impl HealthError {
    pub open spec fn text(self) -> Seq<char> {
        match self {
            HealthError::Status(code) => "health check returned status "@ + text::decimal(
                code as nat,
            ),
            HealthError::Attempt(e) => e@,
            HealthError::TimedOut => "health check timed out"@,
        }
    }

    /// The error in words.
    pub fn message(&self) -> (r: String)
        ensures
            r@ == self.text(),
    {
        match self {
            HealthError::Status(code) => {
                let mut out = "health check returned status ".to_owned();
                text::push_decimal(&mut out, *code as u64);
                out
            },
            HealthError::Attempt(e) => e.clone(),
            HealthError::TimedOut => "health check timed out".to_owned(),
        }
    }
}

/// A status from 200 up to 299.
pub open spec fn is_success(attempt: Result<u16, String>) -> bool {
    attempt matches Ok(code) && 200 <= code < 300
}

/// What an attempt without success says is wrong.
pub open spec fn complaint(attempt: Result<u16, String>) -> HealthError {
    match attempt {
        Ok(code) => HealthError::Status(code),
        Err(e) => HealthError::Attempt(e),
    }
}

/// What a run of attempts comes to: the first success, or else the complaint of
/// the last attempt; without attempts, the time was too short for any.
pub open spec fn waited(attempts: Seq<Result<u16, String>>) -> Result<u16, HealthError>
    decreases attempts.len(),
{
    if attempts.len() == 0 {
        Err(HealthError::TimedOut)
    } else {
        match waited(attempts.drop_last()) {
            Ok(code) => Ok(code),
            Err(_) => if is_success(attempts.last()) {
                Ok(attempts.last()->Ok_0)
            } else {
                Err(complaint(attempts.last()))
            },
        }
    }
}

/// Follows the attempts to reach a health endpoint, until one succeeds or the
/// time is up. The attempts so far determine what is to be reported then.
pub struct HealthWait {
    last: HealthError,
    seen: Ghost<Seq<Result<u16, String>>>,
}

impl HealthWait {
    /// The attempts so far.
    pub closed spec fn attempts(self) -> Seq<Result<u16, String>> {
        self.seen@
    }

    #[verifier::type_invariant]
    spec fn still_waiting(self) -> bool {
        waited(self.seen@) == Err::<u16, HealthError>(self.last)
    }

    pub fn new() -> (r: Self)
        ensures
            r.attempts() == Seq::<Result<u16, String>>::empty(),
            waited(r.attempts()) is Err,
    {
        HealthWait { last: HealthError::TimedOut, seen: Ghost(Seq::empty()) }
    }

    /// Takes what an attempt gave; answers the status where it is a success.
    pub fn observe(&mut self, attempt: Result<u16, String>) -> (r: Option<u16>)
        ensures
            match r {
                Some(code) => attempt == Ok::<u16, String>(code) && is_success(attempt)
                    && final(self).attempts() == old(self).attempts(),
                None => !is_success(attempt) && final(self).attempts() == old(self).attempts().push(attempt),
            },
            waited(final(self).attempts()) is Err,
    {
        let ghost before = self.seen@;
        proof {
            use_type_invariant(&*self);
            assert(before.push(attempt).drop_last() =~= before);
        }
        match attempt {
            Ok(code) => {
                if 200 <= code && code < 300 {
                    return Some(code);
                }
                *self = HealthWait {
                    last: HealthError::Status(code),
                    seen: Ghost(before.push(attempt)),
                };
            },
            Err(e) => {
                *self = HealthWait {
                    last: HealthError::Attempt(e),
                    seen: Ghost(before.push(attempt)),
                };
            },
        }
        None
    }

    /// What to report when the time is up.
    pub fn give_up(self) -> (r: HealthError)
        ensures
            waited(self.attempts()) == Err::<u16, HealthError>(r),
    {
        proof {
            use_type_invariant(&self);
        }
        self.last
    }
}

/// Goes through the attempts that were made within the time until one returns a
/// 2xx status code.
pub fn wait_for_health(attempts: Vec<Result<u16, String>>) -> (r: Result<u16, HealthError>)
    ensures
        r == waited(attempts@),
{
    let ghost all = attempts@;
    let mut rest = attempts;
    let mut wait = HealthWait::new();
    assert(all =~= wait.attempts() + rest@);
    while rest.len() > 0
        invariant
            all == attempts@,
            all == wait.attempts() + rest@,
            waited(wait.attempts()) is Err,
        decreases rest@.len(),
    {
        let ghost before = rest@;
        let ghost done = wait.attempts();
        let attempt = rest.remove(0);
        match wait.observe(attempt) {
            Some(code) => {
                proof {
                    assert(done.push(attempt).drop_last() =~= done);
                    assert(all.take(done.len() as int + 1) =~= done.push(attempt));
                    lemma_waited_stays(all, done.len() as int + 1, code);
                }
                return Ok(code);
            },
            None => {
                assert(all =~= wait.attempts() + rest@);
            },
        }
    }
    assert(wait.attempts() =~= all);
    Err(wait.give_up())
}

/// Once an attempt has succeeded, later ones change nothing.
proof fn lemma_waited_stays(attempts: Seq<Result<u16, String>>, n: int, code: u16)
    requires
        0 <= n <= attempts.len(),
        waited(attempts.take(n)) == Ok::<u16, HealthError>(code),
    ensures
        waited(attempts) == Ok::<u16, HealthError>(code),
    decreases attempts.len() - n,
{
    if n < attempts.len() {
        assert(attempts.take(n + 1).drop_last() =~= attempts.take(n));
        lemma_waited_stays(attempts, n + 1, code);
    } else {
        assert(attempts.take(n) =~= attempts);
    }
}

/// A service is reported healthy exactly when some attempt succeeded, and then
/// with the status of the first that did.
pub proof fn law_first_success_counts(attempts: Seq<Result<u16, String>>, at: int)
    requires
        0 <= at < attempts.len(),
        is_success(attempts[at]),
        forall|i: int| 0 <= i < at ==> !is_success(#[trigger] attempts[i]),
    ensures
        waited(attempts) == Ok::<u16, HealthError>(attempts[at]->Ok_0),
{
    law_no_success_fails(attempts.take(at));
    let done = attempts.take(at + 1);
    assert(done.drop_last() =~= attempts.take(at));
    assert(done.last() == attempts[at]);
    lemma_waited_stays(attempts, at + 1, attempts[at]->Ok_0);
}

/// Without a success a service is not reported healthy, and the report is on
/// the last attempt.
pub proof fn law_no_success_fails(attempts: Seq<Result<u16, String>>)
    requires
        forall|i: int| 0 <= i < attempts.len() ==> !is_success(#[trigger] attempts[i]),
    ensures
        attempts.len() == 0 ==> waited(attempts) == Err::<u16, HealthError>(HealthError::TimedOut),
        attempts.len() > 0 ==> waited(attempts) == Err::<u16, HealthError>(
            complaint(attempts.last()),
        ),
    decreases attempts.len(),
{
    if attempts.len() > 0 {
        let rest = attempts.drop_last();
        assert forall|i: int| 0 <= i < rest.len() implies !is_success(#[trigger] rest[i]) by {
            assert(attempts[i] == rest[i]);
        }
        law_no_success_fails(rest);
        assert(attempts[attempts.len() - 1] == attempts.last());
    }
}

/// Waiting for health comes to the first answer from 200 to 299, and to none without
/// one: then what is told is the last answer, or that there was no time for any.
pub proof fn law_health_is_the_first_good_answer(
    attempts: Vec<Result<u16, String>>,
    r: Result<u16, HealthError>,
)
    requires
        call_ensures(wait_for_health, (attempts,), r),
    ensures
        match r {
            Ok(code) => 200 <= code <= 299 && exists|at: int|
                {
                    &&& 0 <= at < attempts@.len()
                    &&& #[trigger] attempts@[at] == Ok::<u16, String>(code)
                    &&& forall|i: int|
                        0 <= i < at ==> !((#[trigger] attempts@[i]) matches Ok(c) && 200 <= c <= 299)
                },
            Err(e) => {
                &&& forall|i: int|
                    0 <= i < attempts@.len() ==> !((#[trigger] attempts@[i]) matches Ok(c) && 200
                        <= c <= 299)
                &&& attempts@.len() == 0 <==> e is TimedOut
                &&& attempts@.len() > 0 ==> match attempts@.last() {
                    Ok(code) => e == HealthError::Status(code),
                    Err(cause) => e == HealthError::Attempt(cause),
                }
            },
        },
{
    lemma_first_good(attempts@);
}

proof fn lemma_first_good(attempts: Seq<Result<u16, String>>)
    ensures
        match waited(attempts) {
            Ok(code) => 200 <= code <= 299 && exists|at: int|
                {
                    &&& 0 <= at < attempts.len()
                    &&& #[trigger] attempts[at] == Ok::<u16, String>(code)
                    &&& forall|i: int|
                        0 <= i < at ==> !((#[trigger] attempts[i]) matches Ok(c) && 200 <= c <= 299)
                },
            Err(e) => {
                &&& forall|i: int|
                    0 <= i < attempts.len() ==> !((#[trigger] attempts[i]) matches Ok(c) && 200
                        <= c <= 299)
                &&& attempts.len() == 0 <==> e is TimedOut
                &&& attempts.len() > 0 ==> match attempts.last() {
                    Ok(code) => e == HealthError::Status(code),
                    Err(cause) => e == HealthError::Attempt(cause),
                }
            },
        },
    decreases attempts.len(),
{
    if attempts.len() > 0 {
        let front = attempts.drop_last();
        let n = attempts.len() - 1;
        lemma_first_good(front);
        match waited(front) {
            Ok(code) => {
                let at = choose|at: int|
                    {
                        &&& 0 <= at < front.len()
                        &&& #[trigger] front[at] == Ok::<u16, String>(code)
                        &&& forall|i: int|
                            0 <= i < at ==> !((#[trigger] front[i]) matches Ok(c) && 200 <= c
                                <= 299)
                    };
                assert(attempts[at] == Ok::<u16, String>(code));
                assert forall|i: int| 0 <= i < at implies !((#[trigger] attempts[i]) matches Ok(c)
                    && 200 <= c <= 299) by {
                    assert(front[i] == attempts[i]);
                }
            },
            Err(_) => {
                assert forall|i: int| 0 <= i < n implies !((#[trigger] attempts[i]) matches Ok(c)
                    && 200 <= c <= 299) by {
                    assert(front[i] == attempts[i]);
                }
                assert(attempts[n] == attempts.last());
            },
        }
    }
}

/// One attempt gets all the time there is, but never less than a tenth of a second nor
/// more than two seconds.
pub proof fn law_attempt_is_bounded(check: HealthCheck, r: u64)
    requires
        call_ensures(HealthCheck::attempt_timeout_ms, (&check,), r),
    ensures
        100 <= r <= 2000,
        100 <= check.overall_timeout_ms <= 2000 ==> r == check.overall_timeout_ms,
        check.overall_timeout_ms < 100 ==> r == 100,
        check.overall_timeout_ms > 2000 ==> r == 2000,
{
}

/// The status line of an answer gives its status: the number that is its second word.
pub proof fn law_status_line_reads(
    response: Seq<u8>,
    version: Seq<char>,
    code: u16,
    reason: Seq<char>,
    rest: Seq<char>,
    r: Result<u16, StatusError>,
)
    requires
        status_of(response, r),
        vstd::utf8::valid_utf8(response),
        vstd::utf8::decode_utf8(response) == version + seq![' '] + text::decimal(code as nat)
            + seq![' '] + reason + seq!['\r', '\n'] + rest,
        version.len() > 0,
        forall|i: int| 0 <= i < version.len() ==> !text::is_white(#[trigger] version[i]),
        forall|i: int| 0 <= i < reason.len() ==> #[trigger] reason[i] != '\n',
    ensures
        r == Ok::<u16, StatusError>(code),
{
    let number = text::decimal(code as nat);
    let tail = seq![' '] + reason;
    let line = version + (seq![' '] + number + tail);
    let whole = vstd::utf8::decode_utf8(response);
    text::lemma_decimal(code as nat);
    assert(whole =~= line + seq!['\r', '\n'] + rest);
    assert forall|i: int| 0 <= i < line.len() implies #[trigger] line[i] != '\n' by {
        let v = version.len() as int;
        let d = number.len() as int;
        if i < v {
            assert(line[i] == version[i]);
        } else if v < i && i <= v + d {
            assert(line[i] == number[i - v - 1]);
        } else if i > v + d + 1 {
            assert(line[i] == reason[i - v - d - 2]);
        }
    }
    text_laws::law_lines(line, rest);
    let none = Seq::<char>::empty();
    let mid = seq![' '] + number + tail;
    assert(line =~= none + version + mid);
    text_laws::law_words(none, version, mid);
    assert forall|i: int| 0 <= i < number.len() implies !text::is_white(#[trigger] number[i]) by {
        assert(text::is_digit(number[i]));
    }
    text_laws::law_words(seq![' '], number, tail);
    assert(text::words(line) =~= seq![version] + (seq![number] + text::words(tail)));
    text::law_number_of_decimal(code as nat, u16::MAX as nat);
}

/// A port is free if it could be bound; one that is in use, or could not be tried, is an
/// error that names it.
pub proof fn law_port_is_free_if_it_could_be_bound(
    port: u16,
    probe: PortProbe,
    r: Result<(), PortError>,
)
    requires
        call_ensures(assert_port_free, (port, probe), r),
    ensures
        r is Ok <==> probe is Free,
        probe is InUse <==> r == Err::<(), PortError>(PortError::InUse { port }),
        probe matches PortProbe::Failed(e) ==> r == Err::<(), PortError>(
            PortError::Probing { port, cause: e },
        ),
{
}

/// A port is reached as soon as it could be connected to, however late; and is given up
/// only when it is late.
pub proof fn law_port_is_reached_if_it_answers(
    port: u16,
    timeout_ms: u64,
    connected: bool,
    late: bool,
    r: ReachVerdict,
)
    requires
        call_ensures(judge_reach, (port, timeout_ms, connected, late), r),
    ensures
        r is Reached <==> connected,
        r is TryAgain <==> !connected && !late,
        r matches ReachVerdict::GiveUp(e) ==> !connected && late && e.port == port && e.timeout_ms
            == timeout_ms,
{
}

/// The health of a service is asked for by GET on its path, naming the host, and with the
/// connection to be closed.
pub proof fn law_health_request(check: HealthCheck, r: String)
    requires
        call_ensures(HealthCheck::request, (&check,), r),
    ensures
        r@ == "GET "@ + check.path@ + (" HTTP/1.0\r\nHost: "@ + check.host@
            + "\r\nConnection: close\r\n\r\n"@),
{
    assert(r@ =~= "GET "@ + check.path@ + (" HTTP/1.0\r\nHost: "@ + check.host@
        + "\r\nConnection: close\r\n\r\n"@));
}

/// An attempt ends the wait exactly if it was answered with a status from 200 to 299, and
/// then that status is handed out; any other is remembered.
pub proof fn law_good_answer_ends_the_wait(
    wait: &mut HealthWait,
    attempt: Result<u16, String>,
    r: Option<u16>,
)
    requires
        call_ensures(HealthWait::observe, (wait, attempt), r),
    ensures
        forall|code: u16|
            #[trigger] is_answer(attempt, code) && 200 <= code <= 299 <==> r == Some(code),
        r is None ==> final(wait).attempts() == old(wait).attempts().push(attempt),
{
}

/// The attempt was answered with this status.
pub open spec fn is_answer(attempt: Result<u16, String>, code: u16) -> bool {
    attempt == Ok::<u16, String>(code)
}

/// A status is not to be had of what is no UTF-8, of nothing, of a first line without a
/// second word, and of a second word that is no number; and of anything else it is.
pub proof fn law_status_is_to_be_had(response: &[u8], r: Result<u16, StatusError>)
    requires
        call_ensures(parse_status_code, (response,), r),
    ensures
        ({
            let all = vstd::utf8::decode_utf8(response@);
            let words = text::words(text::header_lines(all)[0]);
            match r {
                Ok(code) => vstd::utf8::valid_utf8(response@) && all.len() > 0 && words.len() >= 2
                    && text::number(words[1], 65535) == Some(code as nat),
                Err(StatusError::NotUtf8) => !vstd::utf8::valid_utf8(response@),
                Err(StatusError::Empty) => all.len() == 0,
                Err(StatusError::MissingVersion) => words.len() == 0,
                Err(StatusError::MissingCode) => words.len() == 1,
                Err(StatusError::BadCode { code }) => words.len() >= 2 && code@ == words[1]
                    && text::number(words[1], 65535) is None,
            }
        }),
{
}

} // verus!
