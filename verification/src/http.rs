//! Minimal HTTP/1.0 layer for the bastion control plane.
//!
//! The control plane handles a tiny number of JSON endpoints, so requests are
//! taken apart and responses put together by hand.

use vstd::prelude::*;
use vstd::slice::slice_subrange;
use vstd::slice::slice_to_vec;
use crate::text;

verus! {

#[derive(Debug, Clone, PartialEq, Eq)]
pub struct Request {
    pub method: String,
    pub path: String,
    pub body: Vec<u8>,
}

#[derive(Debug, Clone, PartialEq, Eq)]
pub struct Response {
    pub status: u16,
    pub reason: String,
    pub body: Vec<u8>,
    pub content_type: &'static str,
}

/// Most bytes that a request may have before its end is in sight, so that a
/// tiny bastion does not run out of memory.
pub const MAX_REQUEST: usize = 65536;

/// Most bytes that are read from the peer at a time.
pub const READ_BYTES: usize = 2048;

/// The head of a response: status line and headers, with the empty line that
/// ends them.
pub open spec fn response_head(
    status: u16,
    reason: Seq<char>,
    content_type: Seq<char>,
    length: nat,
) -> Seq<char> {
    "HTTP/1.0 "@ + text::decimal(status as nat) + " "@ + reason + "\r\nContent-Type: "@
        + content_type + "\r\nContent-Length: "@ + text::decimal(length)
        + "\r\nConnection: close\r\n\r\n"@
}

impl Response {
    /// What goes over the wire.
    pub open spec fn wire(self) -> Seq<u8> {
        vstd::utf8::encode_utf8(
            response_head(self.status, self.reason@, self.content_type@, self.body@.len()),
        ) + self.body@
    }

    pub fn json(status: u16, reason: &str, body: &[u8]) -> (r: Self)
        ensures
            r.status == status,
            r.reason@ == reason@,
            r.body@ == body@,
            r.content_type@ == "application/json"@,
    {
        Self {
            status,
            reason: reason.to_owned(),
            body: slice_to_vec(body),
            content_type: "application/json",
        }
    }

    pub fn text(status: u16, reason: &str, body: &[u8]) -> (r: Self)
        ensures
            r.status == status,
            r.reason@ == reason@,
            r.body@ == body@,
            r.content_type@ == "text/plain"@,
    {
        Self {
            status,
            reason: reason.to_owned(),
            body: slice_to_vec(body),
            content_type: "text/plain",
        }
    }

    pub fn to_wire(&self) -> (r: Vec<u8>)
        ensures
            r@ == self.wire(),
    {
        let mut head = "HTTP/1.0 ".to_owned();
        text::push_decimal(&mut head, self.status as u64);
        head.append(" ");
        head.append(self.reason.as_str());
        head.append("\r\nContent-Type: ");
        head.append(self.content_type);
        head.append("\r\nContent-Length: ");
        text::push_decimal(&mut head, self.body.len() as u64);
        head.append("\r\nConnection: close\r\n\r\n");
        let mut out: Vec<u8> = slice_to_vec(head.as_str().as_bytes());
        append_bytes(&mut out, self.body.as_slice());
        out
    }
}

/// Adds `more` to the end of `out`.
pub fn append_bytes(out: &mut Vec<u8>, more: &[u8])
    ensures
        final(out)@ == old(out)@ + more@,
{
    out.extend_from_slice(more);
    assert(out@ =~= old(out)@ + more@);
}

/// `pattern` stands in `raw` at `at`.
pub open spec fn stands_at(raw: Seq<u8>, pattern: Seq<u8>, at: int) -> bool {
    0 <= at && at + pattern.len() <= raw.len() && raw.subrange(at, at + pattern.len()) == pattern
}

/// The first place, from `from` on, where `pattern` stands in `raw`.
pub open spec fn find_from(raw: Seq<u8>, pattern: Seq<u8>, from: int) -> Option<int>
    decreases raw.len() - from,
{
    if from < 0 || from + pattern.len() > raw.len() || from >= raw.len() {
        None
    } else if stands_at(raw, pattern, from) {
        Some(from)
    } else {
        find_from(raw, pattern, from + 1)
    }
}

pub open spec fn crlf_crlf() -> Seq<u8> {
    seq![13u8, 10, 13, 10]
}

pub open spec fn lf_lf() -> Seq<u8> {
    seq![10u8, 10]
}

/// Where the head ends and where the body starts: round the first empty line
/// that CRLF ends, or, where there is none, the first that LF ends.
pub open spec fn terminator(raw: Seq<u8>) -> Option<(int, int)> {
    match find_from(raw, crlf_crlf(), 0) {
        Some(p) => Some((p, p + 4)),
        None => match find_from(raw, lf_lf(), 0) {
            Some(p) => Some((p, p + 2)),
            None => None,
        },
    }
}

/// What [`find_from`] finds is a place where the pattern stands, and the first.
pub proof fn lemma_find_from(raw: Seq<u8>, pattern: Seq<u8>, from: int)
    requires
        0 <= from,
        pattern.len() > 0,
    ensures
        find_from(raw, pattern, from) matches Some(p) ==> from <= p && stands_at(raw, pattern, p),
        find_from(raw, pattern, from) matches Some(p) ==> forall|q: int|
            from <= q < p ==> !#[trigger] stands_at(raw, pattern, q),
        find_from(raw, pattern, from) is None ==> forall|q: int|
            from <= q ==> !#[trigger] stands_at(raw, pattern, q),
    decreases raw.len() - from,
{
    if from + pattern.len() <= raw.len() && !stands_at(raw, pattern, from) {
        lemma_find_from(raw, pattern, from + 1);
    }
}

/// The first place where a pattern stands is what [`find_from`] finds.
pub proof fn lemma_find_first(raw: Seq<u8>, pattern: Seq<u8>, at: int)
    requires
        pattern.len() > 0,
        stands_at(raw, pattern, at),
        forall|q: int| 0 <= q < at ==> !#[trigger] stands_at(raw, pattern, q),
    ensures
        find_from(raw, pattern, 0) == Some(at),
{
    lemma_find_from(raw, pattern, 0);
    assert(0 <= at);
}

/// The first place where `pattern` stands in `raw`.
pub fn find(raw: &[u8], pattern: &[u8]) -> (r: Option<usize>)
    requires
        pattern@.len() > 0,
    ensures
        r matches Some(p) ==> find_from(raw@, pattern@, 0) == Some(p as int) && p + pattern@.len()
            <= raw@.len(),
        r is None ==> find_from(raw@, pattern@, 0) is None,
{
    let n: usize = pattern.len();
    let total: usize = raw.len();
    let mut i: usize = 0;
    while i < total && n <= total - i
        invariant
            i <= total,
            total == raw@.len(),
            n == pattern@.len(),
            n > 0,
            find_from(raw@, pattern@, 0) == find_from(raw@, pattern@, i as int),
        decreases raw@.len() - i,
    {
        let mut k: usize = 0;
        while k < n && raw[i + k] == pattern[k]
            invariant
                k <= n,
                n == pattern@.len(),
                i + n <= total,
                total == raw@.len(),
                forall|j: int| 0 <= j < k ==> raw@[i + j] == #[trigger] pattern@[j],
            decreases n - k,
        {
            k = k + 1;
        }
        if k == n {
            assert(raw@.subrange(i as int, i + n) =~= pattern@);
            return Some(i);
        }
        assert(raw@.subrange(i as int, i + n)[k as int] != pattern@[k as int]);
        i = i + 1;
    }
    None
}

/// Returns `(end_of_head, start_of_body)`. Handles CRLF*2 and LF*2.
pub fn find_header_terminator(raw: &[u8]) -> (r: Option<(usize, usize)>)
    ensures
        r matches Some((e, b)) ==> terminator(raw@) == Some((e as int, b as int)) && e < b
            <= raw@.len(),
        r is None ==> terminator(raw@) is None,
{
    let total: usize = raw.len();
    assert(total == raw@.len());
    let crlf: [u8; 4] = [13, 10, 13, 10];
    let lf: [u8; 2] = [10, 10];
    assert(crlf@ =~= crlf_crlf());
    assert(lf@ =~= lf_lf());
    match find(raw, &crlf) {
        Some(p) => Some((p, p + 4)),
        None => match find(raw, &lf) {
            Some(p) => Some((p, p + 2)),
            None => None,
        },
    }
}

/// Why the bytes are no request.
#[derive(Debug, Clone, Copy, PartialEq, Eq)]
pub enum ParseError {
    NoTerminator,
    HeadNotUtf8,
    MissingMethod,
    MissingPath,
    BadContentLength,
}

impl ParseError {
    pub open spec fn text(self) -> Seq<char> {
        match self {
            ParseError::NoTerminator => "malformed request: no header terminator"@,
            ParseError::HeadNotUtf8 => "request head not valid UTF-8"@,
            ParseError::MissingMethod => "missing method"@,
            ParseError::MissingPath => "missing path"@,
            ParseError::BadContentLength => "parsing content-length"@,
        }
    }

    /// The error in words.
    pub fn message(&self) -> (r: String)
        ensures
            r@ == self.text(),
    {
        match self {
            ParseError::NoTerminator => "malformed request: no header terminator".to_owned(),
            ParseError::HeadNotUtf8 => "request head not valid UTF-8".to_owned(),
            ParseError::MissingMethod => "missing method".to_owned(),
            ParseError::MissingPath => "missing path".to_owned(),
            ParseError::BadContentLength => "parsing content-length".to_owned(),
        }
    }
}

/// What a header line says of the length of the body: nothing, where the line
/// is another header; otherwise the number, where it is one.
pub open spec fn length_field(line: Seq<char>) -> Option<Option<nat>> {
    match text::split_first(line, ':') {
        Some((name, value)) => if text::ascii_lower(name) == text::ascii_lower(
            "content-length"@,
        ) {
            Some(text::number(text::trimmed(value), usize::MAX as nat))
        } else {
            None
        },
        None => None,
    }
}

/// The length of the body by all the header lines: the last word on it, zero
/// where there is none; nothing where a line has a length that is no number.
pub open spec fn declared_length(lines: Seq<Seq<char>>) -> Option<nat>
    decreases lines.len(),
{
    if lines.len() == 0 {
        Some(0)
    } else {
        match declared_length(lines.drop_last()) {
            None => None,
            Some(n) => match length_field(lines.last()) {
                None => Some(n),
                Some(field) => field,
            },
        }
    }
}

/// A request taken apart: method, path, where the body starts and how long it
/// says it is.
pub open spec fn dissect(raw: Seq<u8>) -> Result<(Seq<char>, Seq<char>, int, nat), ParseError> {
    match terminator(raw) {
        None => Err(ParseError::NoTerminator),
        Some((end, start)) => if !vstd::utf8::valid_utf8(raw.take(end)) {
            Err(ParseError::HeadNotUtf8)
        } else {
            let lines = text::header_lines(vstd::utf8::decode_utf8(raw.take(end)));
            let words = text::words(lines[0]);
            if words.len() < 1 {
                Err(ParseError::MissingMethod)
            } else if words.len() < 2 {
                Err(ParseError::MissingPath)
            } else {
                match declared_length(lines.drop_first()) {
                    None => Err(ParseError::BadContentLength),
                    Some(n) => Ok((words[0], words[1], start, n)),
                }
            }
        },
    }
}

/// The body: as long as declared, or what is there of it.
pub open spec fn body_of(raw: Seq<u8>, start: int, n: nat) -> Seq<u8> {
    if start + n <= raw.len() {
        raw.subrange(start, start + n)
    } else {
        raw.skip(start)
    }
}

/// `answer` is what the bytes of a request give.
pub open spec fn parsed(raw: Seq<u8>, answer: Result<Request, ParseError>) -> bool {
    match dissect(raw) {
        Err(e) => answer == Err::<Request, ParseError>(e),
        Ok((method, path, start, n)) => answer matches Ok(r) && r.method@ == method && r.path@
            == path && r.body@ == body_of(raw, start, n),
    }
}

/// What a header line says of the length of the body.
fn read_length_field(line: &[char]) -> (r: Option<Option<usize>>)
    ensures
        r is Some <==> length_field(line@) is Some,
        r matches Some(f) ==> (f is Some <==> length_field(line@)->0 is Some),
        r matches Some(Some(n)) ==> length_field(line@) == Some(Some(n as nat)),
{
    let n: usize = text::position(line, ':');
    if n == line.len() {
        return None;
    }
    let name = slice_subrange(line, 0, n);
    let value = slice_subrange(line, n + 1, line.len());
    assert(name@ == line@.take(n as int));
    assert(value@ == line@.skip(n + 1));
    let wanted = text::chars_of("content-length");
    if !text::same_letters(name, wanted.as_slice()) {
        return None;
    }
    match text::parse_number(text::trim(value), usize::MAX as u64) {
        Some(v) => Some(Some(v as usize)),
        None => Some(None),
    }
}

/// A request taken apart.
fn take_apart(raw: &[u8]) -> (r: Result<(String, String, usize, usize), ParseError>)
    ensures
        match (r, dissect(raw@)) {
            (Ok((m, p, start, n)), Ok(d)) => m@ == d.0 && p@ == d.1 && start == d.2 && n == d.3
                && start <= raw@.len(),
            (Err(e), Err(f)) => e == f,
            _ => false,
        },
{
    let (end, start): (usize, usize) = match find_header_terminator(raw) {
        Some(p) => p,
        None => {
            return Err(ParseError::NoTerminator);
        },
    };
    let head_bytes = slice_subrange(raw, 0, end);
    assert(head_bytes@ == raw@.take(end as int));
    let head = match text::utf8(head_bytes) {
        Some(s) => s,
        None => {
            return Err(ParseError::HeadNotUtf8);
        },
    };
    let chars = text::chars_of(head);
    let lines = text::split_lines(chars.as_slice());
    let ghost all = text::header_lines(chars@);
    assert(text::views(lines@)[0] == lines@[0]@);
    let words = text::split_words(lines[0]);
    assert(text::views(words@) == text::words(all[0]));
    if words.len() < 1 {
        return Err(ParseError::MissingMethod);
    }
    if words.len() < 2 {
        return Err(ParseError::MissingPath);
    }
    assert(text::views(words@)[0] == words@[0]@);
    assert(text::views(words@)[1] == words@[1]@);
    let method = text::string_of(words[0]);
    let path = text::string_of(words[1]);
    let ghost fields = all.drop_first();
    let mut length: usize = 0;
    let mut i: usize = 1;
    assert(fields.take(0) == Seq::<Seq<char>>::empty());
    while i < lines.len()
        invariant
            1 <= i <= lines@.len(),
            text::views(lines@) == all,
            fields == all.drop_first(),
            all == text::header_lines(chars@),
            dissect(raw@) == (match declared_length(fields) {
                None => Err::<(Seq<char>, Seq<char>, int, nat), ParseError>(
                    ParseError::BadContentLength,
                ),
                Some(n) => Ok((method@, path@, start as int, n)),
            }),
            declared_length(fields.take(i - 1)) == Some(length as nat),
        decreases lines@.len() - i,
    {
        assert(fields.take(i as int).drop_last() == fields.take(i - 1));
        assert(fields[i - 1] == all[i as int]);
        assert(text::views(lines@)[i as int] == lines@[i as int]@);
        match read_length_field(lines[i]) {
            None => {},
            Some(None) => {
                proof {
                    lemma_declared_length_stays_bad(fields, i as int);
                }
                return Err(ParseError::BadContentLength);
            },
            Some(Some(n)) => {
                length = n;
            },
        }
        i = i + 1;
    }
    assert(fields.take(i - 1) == fields);
    Ok((method, path, start, length))
}

proof fn lemma_declared_length_stays_bad(lines: Seq<Seq<char>>, n: int)
    requires
        0 <= n <= lines.len(),
        declared_length(lines.take(n)) is None,
    ensures
        declared_length(lines) is None,
    decreases lines.len() - n,
{
    if n < lines.len() {
        assert(lines.take(n + 1).drop_last() == lines.take(n));
        lemma_declared_length_stays_bad(lines, n + 1);
    } else {
        assert(lines.take(n) == lines);
    }
}

/// Parse the bytes of an HTTP/1.x request. Tolerant of either bare-LF or CRLF
/// line endings; rejects anything we can't interpret.
pub fn parse_request(raw: &[u8]) -> (r: Result<Request, ParseError>)
    ensures
        parsed(raw@, r),
{
    match take_apart(raw) {
        Err(e) => Err(e),
        Ok((method, path, start, n)) => {
            let total: usize = raw.len();
            let body = if n <= total - start {
                slice_to_vec(slice_subrange(raw, start, start + n))
            } else {
                let rest = slice_subrange(raw, start, total);
                assert(rest@ == raw@.skip(start as int));
                slice_to_vec(rest)
            };
            Ok(Request { method, path, body })
        },
    }
}

/// Categorized error from reading a request. The connection handler logs each
/// variant at the appropriate level: empty connections from health-check
/// probes are noise, while truncated or oversized requests from real misuse
/// deserve attention.
#[derive(Debug, Clone, PartialEq, Eq)]
pub enum RequestError {
    /// Peer closed the connection without sending a single byte. Common
    /// from external port scans / ALB-style TCP-only health probes; not
    /// worth surfacing.
    EmptyConnection,
    /// Some bytes received but the header block didn't terminate before EOF.
    Truncated { bytes: usize },
    /// Request body exceeded the size cap before headers terminated.
    Oversized { cap: usize },
    /// Headers were complete but couldn't be parsed.
    Malformed(ParseError),
    /// Underlying socket I/O failed.
    Io(String),
}

impl RequestError {
    pub open spec fn text(self) -> Seq<char> {
        match self {
            RequestError::EmptyConnection => "peer closed without data"@,
            RequestError::Truncated { bytes } => "request truncated after "@ + text::decimal(
                bytes as nat,
            ) + " bytes (no header terminator)"@,
            RequestError::Oversized { cap } => "request exceeded "@ + text::decimal(cap as nat)
                + " bytes"@,
            RequestError::Malformed(e) => "malformed: "@ + e.text(),
            RequestError::Io(e) => "socket I/O: "@ + e@,
        }
    }

    /// The error in words.
    pub fn message(&self) -> (r: String)
        ensures
            r@ == self.text(),
    {
        match self {
            RequestError::EmptyConnection => "peer closed without data".to_owned(),
            RequestError::Truncated { bytes } => {
                let mut out = "request truncated after ".to_owned();
                text::push_decimal(&mut out, *bytes as u64);
                out.append(" bytes (no header terminator)");
                out
            },
            RequestError::Oversized { cap } => {
                let mut out = "request exceeded ".to_owned();
                text::push_decimal(&mut out, *cap as u64);
                out.append(" bytes");
                out
            },
            RequestError::Malformed(e) => {
                let mut out = "malformed: ".to_owned();
                out.append(e.message().as_str());
                out
            },
            RequestError::Io(e) => {
                let mut out = "socket I/O: ".to_owned();
                out.append(e.as_str());
                out
            },
        }
    }
}

/// The first length of a body that the lines give; zero where none does. Lines
/// whose length is no number are passed over.
pub open spec fn early_length(lines: Seq<Seq<char>>) -> nat
    decreases lines.len(),
{
    if lines.len() == 0 {
        0
    } else {
        match length_field(text::strip_end(lines[0], text::equal_to('\r'))) {
            Some(Some(n)) => n,
            _ => early_length(lines.drop_first()),
        }
    }
}

/// The lines of a head, as far as the line feed before the body; none where
/// the head is not UTF-8.
pub open spec fn early_lines(buf: Seq<u8>, start: int) -> Seq<Seq<char>> {
    let head = buf.take(start - 1);
    text::split_on(
        if vstd::utf8::valid_utf8(head) {
            vstd::utf8::decode_utf8(head)
        } else {
            seq![]
        },
        '\n',
    )
}

/// How many bytes the request has in all, once its head is there.
pub open spec fn expected_end(buf: Seq<u8>) -> Option<int> {
    match terminator(buf) {
        None => None,
        Some((_, start)) => Some(start + early_length(early_lines(buf, start))),
    }
}

/// All of the request is there.
pub open spec fn complete(buf: Seq<u8>) -> bool {
    expected_end(buf) matches Some(end) && buf.len() >= end
}

/// What the bytes received give once no more are read.
pub open spec fn finished(buf: Seq<u8>, answer: Result<Request, RequestError>) -> bool {
    if buf.len() == 0 {
        answer == Err::<Request, RequestError>(RequestError::EmptyConnection)
    } else if terminator(buf) is None {
        answer == Err::<Request, RequestError>(RequestError::Truncated { bytes: buf.len() as usize })
    } else {
        match answer {
            Ok(r) => parsed(buf, Ok(r)),
            Err(RequestError::Malformed(e)) => parsed(buf, Err(e)),
            Err(_) => false,
        }
    }
}

/// What one read gives on top of the bytes received so far: nothing yet, or
/// the request, or the error. More bytes than the cap are never taken for a
/// request, and once the cap is reached a request that is still incomplete is
/// given up.
pub open spec fn fed(
    buf: Seq<u8>,
    read: Result<Vec<u8>, String>,
    answer: Option<Result<Request, RequestError>>,
) -> bool {
    match read {
        Err(e) => answer == Some(Err::<Request, RequestError>(RequestError::Io(e))),
        Ok(chunk) => if chunk@.len() == 0 {
            answer matches Some(a) && finished(buf, a)
        } else if (buf + chunk@).len() > MAX_REQUEST {
            answer == Some(Err::<Request, RequestError>(RequestError::Oversized { cap: MAX_REQUEST }))
        } else if complete(buf + chunk@) {
            answer matches Some(a) && finished(buf + chunk@, a)
        } else if (buf + chunk@).len() == MAX_REQUEST {
            answer == Some(Err::<Request, RequestError>(RequestError::Oversized { cap: MAX_REQUEST }))
        } else {
            answer is None
        },
    }
}

/// What a run of reads gives: the answer of the first that has one. Where the
/// reads run out, the peer has closed.
pub open spec fn reading(
    buf: Seq<u8>,
    reads: Seq<Result<Vec<u8>, String>>,
    answer: Result<Request, RequestError>,
) -> bool
    decreases reads.len(),
{
    if reads.len() == 0 {
        finished(buf, answer)
    } else if reads[0] is Ok && fed(buf, reads[0], None) {
        reading(buf + reads[0]->Ok_0@, reads.drop_first(), answer)
    } else {
        fed(buf, reads[0], Some(answer))
    }
}

/// What the reads of a connection bring together.
pub open spec fn gathered(reads: Seq<Result<Vec<u8>, String>>) -> Seq<u8>
    decreases reads.len(),
{
    if reads.len() == 0 {
        seq![]
    } else {
        reads[0]->Ok_0@ + gathered(reads.drop_first())
    }
}

/// The answer is what the bytes of the first `n` reads give on top of `buf`, and
/// they are no more than the cap.
pub open spec fn made_of(
    buf: Seq<u8>,
    reads: Seq<Result<Vec<u8>, String>>,
    n: int,
    answer: Result<Request, RequestError>,
) -> bool {
    &&& 0 <= n <= reads.len()
    &&& (buf + gathered(reads.take(n))).len() <= MAX_REQUEST
    &&& finished(buf + gathered(reads.take(n)), answer)
}

proof fn lemma_made_of(
    buf: Seq<u8>,
    reads: Seq<Result<Vec<u8>, String>>,
    answer: Result<Request, RequestError>,
)
    requires
        buf.len() < MAX_REQUEST,
        reading(buf, reads, answer),
        answer is Ok,
    ensures
        exists|n: int| #[trigger] made_of(buf, reads, n, answer),
    decreases reads.len(),
{
    if reads.len() == 0 {
        assert(reads.take(0) =~= reads);
        assert(buf + gathered(reads.take(0)) =~= buf);
        assert(made_of(buf, reads, 0, answer));
    } else {
        let chunk = reads[0]->Ok_0@;
        let rest = reads.drop_first();
        if reads[0] is Ok && fed(buf, reads[0], None) {
            lemma_made_of(buf + chunk, rest, answer);
            let n = choose|n: int| #[trigger] made_of(buf + chunk, rest, n, answer);
            assert(reads.take(n + 1).drop_first() =~= rest.take(n));
            assert(buf + gathered(reads.take(n + 1)) =~= buf + chunk + gathered(rest.take(n)));
            assert(made_of(buf, reads, n + 1, answer));
        } else if chunk.len() == 0 {
            assert(gathered(reads.take(0)).len() == 0);
            assert(buf + gathered(reads.take(0)) =~= buf);
            assert(made_of(buf, reads, 0, answer));
        } else {
            assert(reads.take(1).drop_first() =~= Seq::empty());
            assert(gathered(reads.take(1).drop_first()).len() == 0);
            assert(buf + gathered(reads.take(1)) =~= buf + chunk);
            assert(made_of(buf, reads, 1, answer));
        }
    }
}

/// Reading is bounded: whatever the peer sends and however it is cut up, a
/// request is made of the first reads alone, and of no more bytes than the cap.
pub proof fn law_reading_is_bounded(
    reads: Seq<Result<Vec<u8>, String>>,
    answer: Result<Request, RequestError>,
)
    requires
        reading(Seq::empty(), reads, answer),
        answer is Ok,
    ensures
        exists|n: int| #[trigger] made_of(Seq::empty(), reads, n, answer),
{
    lemma_made_of(Seq::empty(), reads, answer);
}

/// How many bytes may still come before the cap is reached.
pub open spec fn room(buf: Seq<u8>) -> int {
    if buf.len() < MAX_REQUEST {
        MAX_REQUEST - buf.len()
    } else {
        0
    }
}

/// The bytes that are taken from the reads until there is an answer.
pub open spec fn received(buf: Seq<u8>, reads: Seq<Result<Vec<u8>, String>>) -> Seq<u8>
    decreases reads.len(),
{
    if reads.len() == 0 || reads[0] is Err {
        buf
    } else if fed(buf, reads[0], None) {
        received(buf + reads[0]->Ok_0@, reads.drop_first())
    } else {
        buf + reads[0]->Ok_0@
    }
}

/// No read brings more than there is room for when it is made.
pub open spec fn paced(buf: Seq<u8>, reads: Seq<Result<Vec<u8>, String>>) -> bool
    decreases reads.len(),
{
    reads.len() == 0 || reads[0] is Err || {
        &&& reads[0]->Ok_0@.len() <= room(buf)
        &&& fed(buf, reads[0], None) ==> paced(buf + reads[0]->Ok_0@, reads.drop_first())
    }
}

proof fn lemma_paced(buf: Seq<u8>, reads: Seq<Result<Vec<u8>, String>>)
    requires
        buf.len() <= MAX_REQUEST,
        paced(buf, reads),
    ensures
        received(buf, reads).len() <= MAX_REQUEST,
    decreases reads.len(),
{
    if reads.len() > 0 && reads[0] is Ok && fed(buf, reads[0], None) {
        lemma_paced(buf + reads[0]->Ok_0@, reads.drop_first());
    }
}

/// Where no read asks for more than there is room for, no more bytes than the cap
/// are ever taken from the peer, whatever it sends.
pub proof fn law_paced_reading_stays_below_the_cap(reads: Seq<Result<Vec<u8>, String>>)
    requires
        paced(Seq::empty(), reads),
    ensures
        received(Seq::empty(), reads).len() <= MAX_REQUEST,
{
    lemma_paced(Seq::empty(), reads);
}

/// Puts a request together from what the socket yields, one read at a time.
pub struct RequestReader {
    buf: Vec<u8>,
}

impl View for RequestReader {
    type V = Seq<u8>;

    closed spec fn view(&self) -> Seq<u8> {
        self.buf@
    }
}

impl RequestReader {
    pub fn new() -> (r: Self)
        ensures
            r@ == Seq::<u8>::empty(),
    {
        Self { buf: Vec::new() }
    }

    /// How many bytes the next read should ask for at most: those of one piece,
    /// and no more than there is room for. While there is no answer there is room.
    pub fn wanted(&self) -> (r: usize)
        ensures
            r == (if room(self@) < READ_BYTES {
                room(self@)
            } else {
                READ_BYTES as int
            }),
            self@.len() < MAX_REQUEST ==> r > 0,
    {
        let n: usize = self.buf.len();
        if n >= MAX_REQUEST {
            0
        } else if MAX_REQUEST - n < READ_BYTES {
            MAX_REQUEST - n
        } else {
            READ_BYTES
        }
    }

    /// Takes what a read gave. The answer is there as soon as all of the
    /// request is, or an error shows; until then there is none, and reading
    /// goes on.
    pub fn take(&mut self, read: Result<Vec<u8>, String>) -> (r: Option<
        Result<Request, RequestError>,
    >)
        ensures
            fed(old(self)@, read, r),
            r is None ==> read is Ok && final(self)@ == old(self)@ + read->Ok_0@,
            r is None ==> final(self)@.len() < MAX_REQUEST,
    {
        match read {
            Err(e) => Some(Err(RequestError::Io(e))),
            Ok(chunk) => {
                if chunk.len() == 0 {
                    return Some(self.finish());
                }
                append_bytes(&mut self.buf, chunk.as_slice());
                if self.buf.len() > MAX_REQUEST {
                    Some(Err(RequestError::Oversized { cap: MAX_REQUEST }))
                } else if is_complete(self.buf.as_slice()) {
                    Some(self.finish())
                } else if self.buf.len() == MAX_REQUEST {
                    Some(Err(RequestError::Oversized { cap: MAX_REQUEST }))
                } else {
                    None
                }
            },
        }
    }

    /// What the bytes received give once no more are read.
    pub fn finish(&self) -> (r: Result<Request, RequestError>)
        ensures
            finished(self@, r),
    {
        if self.buf.len() == 0 {
            return Err(RequestError::EmptyConnection);
        }
        if find_header_terminator(self.buf.as_slice()).is_none() {
            return Err(RequestError::Truncated { bytes: self.buf.len() });
        }
        match parse_request(self.buf.as_slice()) {
            Ok(r) => Ok(r),
            Err(e) => Err(RequestError::Malformed(e)),
        }
    }
}

/// Whether all of the request is there.
fn is_complete(buf: &[u8]) -> (r: bool)
    ensures
        r == complete(buf@),
{
    let total: usize = buf.len();
    match find_header_terminator(buf) {
        None => false,
        Some((_, start)) => scan_length(buf, start) <= total - start,
    }
}

/// The first length of a body that the head gives.
fn scan_length(buf: &[u8], start: usize) -> (r: usize)
    requires
        1 <= start <= buf@.len(),
    ensures
        r == early_length(early_lines(buf@, start as int)),
{
    let head = slice_subrange(buf, 0, start - 1);
    assert(head@ == buf@.take(start - 1));
    let chars: Vec<char> = match text::utf8(head) {
        Some(s) => text::chars_of(s),
        None => Vec::new(),
    };
    let lines = text::split(chars.as_slice(), '\n');
    let ghost all = text::views(lines@);
    let mut i: usize = 0;
    assert(all.skip(0) == all);
    while i < lines.len()
        invariant
            i <= lines@.len(),
            all == text::views(lines@),
            all == early_lines(buf@, start as int),
            early_length(all) == early_length(all.skip(i as int)),
        decreases lines@.len() - i,
    {
        assert(all.skip(i as int)[0] == lines@[i as int]@);
        assert(all.skip(i as int).drop_first() == all.skip(i + 1));
        match read_length_field(text::drop_last_all(lines[i], '\r')) {
            Some(Some(n)) => {
                return n;
            },
            _ => {},
        }
        i = i + 1;
    }
    0
}

/// Read enough to materialize one complete request from what the reads of a
/// connection gave. Stops at the header terminator or after `Content-Length`
/// body bytes are in hand, whichever is later. Bounded to 64 KiB to avoid OOM
/// on a tiny bastion.
pub fn read_request(reads: Vec<Result<Vec<u8>, String>>) -> (r: Result<Request, RequestError>)
    ensures
        reading(Seq::empty(), reads@, r),
{
    let ghost all = reads@;
    let mut rest = reads;
    let mut reader = RequestReader::new();
    while rest.len() > 0
        invariant
            all == reads@,
            forall|a: Result<Request, RequestError>| #[trigger]
                reading(reader@, rest@, a) ==> reading(Seq::empty(), all, a),
        decreases rest@.len(),
    {
        let ghost before = rest@;
        let ghost buf = reader@;
        let read = rest.remove(0);
        assert(rest@ == before.drop_first());
        match reader.take(read) {
            Some(answer) => {
                assert(reading(buf, before, answer));
                return answer;
            },
            None => {
                assert forall|a: Result<Request, RequestError>| #[trigger]
                    reading(reader@, rest@, a) implies reading(Seq::empty(), all, a) by {
                    assert(reading(buf, before, a));
                }
            },
        }
    }
    let answer = reader.finish();
    assert(reading(reader@, rest@, answer));
    answer
}

/// A response goes out as its status line, its kind and its length, that the connection
/// is closed, an empty line and its body.
pub proof fn law_response_goes_out(response: Response, r: Vec<u8>)
    requires
        call_ensures(Response::to_wire, (&response,), r),
    ensures
        r@ == vstd::utf8::encode_utf8(
            "HTTP/1.0 "@ + text::decimal(response.status as nat) + " "@ + response.reason@
                + "\r\nContent-Type: "@ + response.content_type@ + "\r\nContent-Length: "@
                + text::decimal(response.body@.len()) + "\r\nConnection: close\r\n\r\n"@,
        ) + response.body@,
{
}

/// A response is of the kind that it is made as.
pub proof fn law_response_kinds(
    status: u16,
    reason: &str,
    body: &[u8],
    json: Response,
    text: Response,
)
    requires
        call_ensures(Response::json, (status, reason, body), json),
        call_ensures(Response::text, (status, reason, body), text),
    ensures
        json.status == status && text.status == status,
        json.reason@ == reason@ && text.reason@ == reason@,
        json.body@ == body@ && text.body@ == body@,
        json.content_type@ == "application/json"@,
        text.content_type@ == "text/plain"@,
{
}

/// A reader wants two kilobytes at a time, and never more than what is left up to
/// sixty-four.
pub proof fn law_reader_wants_what_is_left(reader: RequestReader, r: usize)
    requires
        call_ensures(RequestReader::wanted, (&reader,), r),
    ensures
        r <= 2048,
        reader@.len() <= 65536 ==> reader@.len() + r <= 65536,
        reader@.len() + 2048 <= 65536 ==> r == 2048,
        reader@.len() < 65536 ==> r > 0,
{
}

} // verus!
