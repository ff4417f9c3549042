//! What one end of the control plane writes, the other end reads.

use vstd::prelude::*;
use crate::bastion_client;
use crate::common;
use crate::common::RegisterRequest;
use crate::handlers;
use crate::http;
use crate::http::{Request, RequestError, Response};
use crate::registry;
use crate::registry::PortRange;
use crate::runner;
use crate::text;

verus! {

/// No line feed in it.
pub open spec fn one_line(s: Seq<char>) -> bool {
    forall|i: int| 0 <= i < s.len() ==> #[trigger] s[i] != '\n'
}

/// Characters and no white space among them.
pub open spec fn one_word(s: Seq<char>) -> bool {
    s.len() > 0 && forall|i: int| 0 <= i < s.len() ==> !text::is_white(#[trigger] s[i])
}

pub open spec fn crlf() -> Seq<char> {
    seq!['\r', '\n']
}

/// Lines, none of them empty and each ended by CRLF but the last.
pub open spec fn head_text(lines: Seq<Seq<char>>) -> Seq<char>
    decreases lines.len(),
{
    if lines.len() == 0 {
        seq![]
    } else if lines.len() == 1 {
        lines[0]
    } else {
        lines[0] + crlf() + head_text(lines.drop_first())
    }
}

spec fn header_block(lines: Seq<Seq<char>>) -> bool {
    &&& lines.len() > 0
    &&& forall|i: int| 0 <= i < lines.len() ==> one_line(#[trigger] lines[i])
    &&& forall|i: int| 0 <= i < lines.len() ==> (#[trigger] lines[i]).len() > 0
}

proof fn lemma_encode_concat(a: Seq<char>, b: Seq<char>)
    ensures
        vstd::utf8::encode_utf8(a + b) == vstd::utf8::encode_utf8(a) + vstd::utf8::encode_utf8(b),
    decreases a.len(),
{
    if a.len() == 0 {
        assert(a + b == b);
    } else {
        lemma_encode_concat(a.drop_first(), b);
        assert((a + b).drop_first() == a.drop_first() + b);
    }
}

proof fn lemma_scalar_no_lf(c: u32)
    requires
        c != 10,
        vstd::utf8::is_scalar(c),
    ensures
        forall|i: int|
            0 <= i < vstd::utf8::encode_scalar(c).len() ==> #[trigger] vstd::utf8::encode_scalar(
                c,
            )[i] != 10,
        vstd::utf8::encode_scalar(c).len() > 0,
{
    assert(c <= 0x7f && c != 10 ==> (c & 0x7F) as u8 != 10) by (bit_vector);
    assert(0xC0u8 | ((c >> 6) & 0x1F) as u8 != 10) by (bit_vector);
    assert(0xE0u8 | ((c >> 12) & 0x0F) as u8 != 10) by (bit_vector);
    assert(0xF0u8 | ((c >> 18) & 0x7) as u8 != 10) by (bit_vector);
    assert(0x80u8 | (c & 0x3F) as u8 != 10) by (bit_vector);
    assert(0x80u8 | ((c >> 6) & 0x3F) as u8 != 10) by (bit_vector);
    assert(0x80u8 | ((c >> 12) & 0x3F) as u8 != 10) by (bit_vector);
}

proof fn lemma_encode_one_line(s: Seq<char>)
    requires
        one_line(s),
    ensures
        forall|i: int|
            0 <= i < vstd::utf8::encode_utf8(s).len() ==> #[trigger] vstd::utf8::encode_utf8(s)[i]
                != 10,
        s.len() > 0 ==> vstd::utf8::encode_utf8(s).len() > 0,
    decreases s.len(),
{
    if s.len() > 0 {
        let rest = s.drop_first();
        assert forall|i: int| 0 <= i < rest.len() implies #[trigger] rest[i] != '\n' by {
            assert(rest[i] == s[i + 1]);
        }
        lemma_encode_one_line(rest);
        let c = s[0];
        assert(c != '\n');
        vstd::utf8::char_is_scalar(c);
        vstd::utf8::char_u32_cast(c, c as u32);
        assert('\n' == 10u32 as char);
        lemma_scalar_no_lf(c as u32);
        let head = vstd::utf8::encode_scalar(c as u32);
        let tail = vstd::utf8::encode_utf8(rest);
        assert forall|i: int| 0 <= i < vstd::utf8::encode_utf8(s).len() implies #[trigger]
            vstd::utf8::encode_utf8(s)[i] != 10 by {
            if i < head.len() {
                assert(vstd::utf8::encode_utf8(s)[i] == head[i]);
            } else {
                assert(vstd::utf8::encode_utf8(s)[i] == tail[i - head.len()]);
            }
        }
    }
}

proof fn lemma_encode_crlf()
    ensures
        vstd::utf8::encode_utf8(crlf()) == seq![13u8, 10],
        vstd::utf8::encode_utf8(seq!['\r', '\n', '\r', '\n']) == http::crlf_crlf(),
        vstd::utf8::encode_utf8(seq!['\r', '\n', '\r']) == seq![13u8, 10, 13],
{
    let four = seq!['\r', '\n', '\r', '\n'];
    let three = seq!['\r', '\n', '\r'];
    assert(vstd::utf8::is_ascii_chars(crlf()));
    assert(vstd::utf8::is_ascii_chars(four));
    assert(vstd::utf8::is_ascii_chars(three));
    vstd::utf8::is_ascii_chars_encode_utf8(crlf());
    vstd::utf8::is_ascii_chars_encode_utf8(four);
    vstd::utf8::is_ascii_chars_encode_utf8(three);
    assert(crlf()[0] as u8 == 13 && crlf()[1] as u8 == 10);
    assert(four[0] as u8 == 13 && four[1] as u8 == 10 && four[2] as u8 == 13 && four[3] as u8
        == 10);
    assert(three[0] as u8 == 13 && three[1] as u8 == 10 && three[2] as u8 == 13);
    assert(vstd::utf8::encode_utf8(crlf()) =~= seq![13u8, 10]);
    assert(vstd::utf8::encode_utf8(four) =~= http::crlf_crlf());
    assert(vstd::utf8::encode_utf8(three) =~= seq![13u8, 10, 13]);
}

/// The head of a message in bytes, with the empty line that ends it.
spec fn head_bytes(lines: Seq<Seq<char>>) -> Seq<u8> {
    vstd::utf8::encode_utf8(head_text(lines)) + http::crlf_crlf()
}

proof fn lemma_drop_first_block(lines: Seq<Seq<char>>)
    requires
        header_block(lines),
        lines.len() > 1,
    ensures
        header_block(lines.drop_first()),
        vstd::utf8::encode_utf8(head_text(lines)) == vstd::utf8::encode_utf8(lines[0]) + seq![
            13u8,
            10,
        ] + vstd::utf8::encode_utf8(head_text(lines.drop_first())),
{
    let rest = lines.drop_first();
    assert forall|i: int| 0 <= i < rest.len() implies one_line(#[trigger] rest[i])
        && rest[i].len() > 0 by {
        assert(rest[i] == lines[i + 1]);
    }
    lemma_encode_crlf();
    lemma_encode_concat(lines[0] + crlf(), head_text(rest));
    lemma_encode_concat(lines[0], crlf());
}

/// The first empty line of a message is the one that ends its head.
#[verifier::spinoff_prover]
#[verifier::rlimit(40)]
proof fn lemma_head_ends(lines: Seq<Seq<char>>, body: Seq<u8>)
    requires
        header_block(lines),
    ensures
        http::find_from(head_bytes(lines) + body, http::crlf_crlf(), 0) == Some(
            head_bytes(lines).len() - 4,
        ),
        head_bytes(lines).len() > 4,
        (head_bytes(lines) + body)[1] != 10,
    decreases lines.len(),
{
    let raw = head_bytes(lines) + body;
    let pattern = http::crlf_crlf();
    let first = vstd::utf8::encode_utf8(lines[0]);
    let at = head_bytes(lines).len() - 4;
    lemma_encode_one_line(lines[0]);
    if lines.len() == 1 {
        assert(raw.subrange(at, at + 4) =~= pattern);
        assert forall|q: int| 0 <= q < at implies !#[trigger] http::stands_at(raw, pattern, q) by {
            if http::stands_at(raw, pattern, q) {
                assert(raw.subrange(q, q + 4)[1] == raw[q + 1]);
                if q + 1 < first.len() {
                    assert(raw[q + 1] == first[q + 1]);
                }
            }
        }
        if first.len() > 1 {
            assert(raw[1] == first[1]);
        }
    } else {
        let rest = lines.drop_first();
        lemma_drop_first_block(lines);
        lemma_head_ends(rest, body);
        let tail = head_bytes(rest) + body;
        let n = first.len() as int;
        assert(raw =~= first + seq![13u8, 10] + tail);
        let p = head_bytes(rest).len() - 4;
        http::lemma_find_from(tail, pattern, 0);
        assert(http::stands_at(tail, pattern, p));
        assert(at == n + 2 + p);
        assert(raw.subrange(at, at + 4) =~= tail.subrange(p, p + 4));
        assert forall|q: int| 0 <= q < at implies !#[trigger] http::stands_at(raw, pattern, q) by {
            if http::stands_at(raw, pattern, q) {
                let here = raw.subrange(q, q + 4);
                assert(here[0] == raw[q] && here[1] == raw[q + 1] && here[3] == raw[q + 3]);
                if q + 1 < n {
                    assert(raw[q + 1] == first[q + 1]);
                } else if q == n {
                    assert(raw[q + 3] == tail[1]);
                } else if q >= n + 2 {
                    assert(raw.subrange(q, q + 4) =~= tail.subrange(q - n - 2, q - n + 2));
                    assert(http::stands_at(tail, pattern, q - n - 2));
                }
            }
        }
        if n > 1 {
            assert(raw[1] == first[1]);
        }
    }
    http::lemma_find_first(raw, pattern, at);
}

/// In the head of a message every line feed stands behind a carriage return.
proof fn lemma_lf_behind_cr(lines: Seq<Seq<char>>)
    requires
        header_block(lines),
    ensures
        forall|i: int|
            0 <= i < head_bytes(lines).len() && #[trigger] head_bytes(lines)[i] == 10 ==> i > 0
                && head_bytes(lines)[i - 1] == 13,
    decreases lines.len(),
{
    let all = head_bytes(lines);
    let first = vstd::utf8::encode_utf8(lines[0]);
    lemma_encode_one_line(lines[0]);
    if lines.len() == 1 {
        assert forall|i: int| 0 <= i < all.len() && #[trigger] all[i] == 10 implies i > 0 && all[i
            - 1] == 13 by {
            if i < first.len() {
                assert(all[i] == first[i]);
            }
        }
    } else {
        let rest = lines.drop_first();
        lemma_drop_first_block(lines);
        lemma_lf_behind_cr(rest);
        let tail = head_bytes(rest);
        let n = first.len() as int;
        assert(all =~= first + seq![13u8, 10] + tail);
        assert forall|i: int| 0 <= i < all.len() && #[trigger] all[i] == 10 implies i > 0 && all[i
            - 1] == 13 by {
            if i < n {
                assert(all[i] == first[i]);
            } else if i >= n + 2 {
                assert(all[i] == tail[i - n - 2]);
                assert(all[i - 1] == tail[i - n - 3]);
            }
        }
    }
}

/// A message has no terminator until all of its head is there, and then it is
/// the one at the end of the head.
proof fn lemma_terminator_of_prefix(lines: Seq<Seq<char>>, body: Seq<u8>, n: int)
    requires
        header_block(lines),
        0 <= n <= head_bytes(lines).len() + body.len(),
    ensures
        n < head_bytes(lines).len() ==> http::terminator((head_bytes(lines) + body).take(n))
            is None,
        n >= head_bytes(lines).len() ==> http::terminator((head_bytes(lines) + body).take(n))
            == Some((head_bytes(lines).len() - 4, head_bytes(lines).len() as int)),
{
    let head = head_bytes(lines);
    let raw = head + body;
    let part = raw.take(n);
    let at = head.len() - 4;
    let pattern = http::crlf_crlf();
    if n >= head.len() {
        assert(part =~= head + body.take(n - head.len()));
        lemma_head_ends(lines, body.take(n - head.len()));
    } else {
        lemma_head_ends(lines, body);
        lemma_lf_behind_cr(lines);
        http::lemma_find_from(raw, pattern, 0);
        http::lemma_find_from(part, pattern, 0);
        http::lemma_find_from(part, http::lf_lf(), 0);
        assert forall|q: int| 0 <= q implies !#[trigger] http::stands_at(part, pattern, q) by {
            if http::stands_at(part, pattern, q) {
                assert(raw.subrange(q, q + 4) =~= part.subrange(q, q + 4));
                assert(http::stands_at(raw, pattern, q));
            }
        }
        assert forall|q: int| 0 <= q implies !#[trigger] http::stands_at(
            part,
            http::lf_lf(),
            q,
        ) by {
            if http::stands_at(part, http::lf_lf(), q) {
                let here = part.subrange(q, q + 2);
                assert(here[0] == head[q] && here[1] == head[q + 1]);
                assert(head[q + 1] == 10);
            }
        }
        if http::find_from(part, pattern, 0) is Some {
            assert(http::stands_at(part, pattern, http::find_from(part, pattern, 0)->0));
        }
        if http::find_from(part, http::lf_lf(), 0) is Some {
            assert(http::stands_at(
                part,
                http::lf_lf(),
                http::find_from(part, http::lf_lf(), 0)->0,
            ));
        }
    }
}

/// The lines of a head are the lines that it was made of.
proof fn lemma_header_lines(lines: Seq<Seq<char>>)
    requires
        header_block(lines),
    ensures
        text::header_lines(head_text(lines)) == lines,
    decreases lines.len(),
{
    let s = head_text(lines);
    let f = text::other_than('\n');
    if lines.len() == 1 {
        text::lemma_span_unique(s, f, s.len());
        assert(text::header_lines(s) =~= lines);
    } else {
        let rest = lines.drop_first();
        let n = lines[0].len() as int;
        lemma_drop_first_block(lines);
        lemma_header_lines(rest);
        assert forall|i: int| 0 <= i < n + 1 implies f(#[trigger] s[i]) by {
            if i < n {
                assert(s[i] == lines[0][i]);
            }
        }
        assert(s[n + 1] == '\n');
        text::lemma_span_unique(s, f, (n + 1) as nat);
        assert(s.take(n + 1) =~= lines[0].push('\r'));
        assert(lines[0].push('\r').drop_last() =~= lines[0]);
        assert(s.skip(n + 2) =~= head_text(rest));
        assert(text::header_lines(s) =~= lines);
    }
}

/// The head cut at its line feeds gives its lines, each with a carriage return
/// behind it, and the carriage return of the empty line.
proof fn lemma_split_head(lines: Seq<Seq<char>>)
    requires
        header_block(lines),
    ensures
        text::split_on(head_text(lines) + seq!['\r', '\n', '\r'], '\n') == lines.map_values(
            |l: Seq<char>| l.push('\r'),
        ).push(seq!['\r']),
    decreases lines.len(),
{
    let end = seq!['\r', '\n', '\r'];
    let s = head_text(lines) + end;
    let f = text::other_than('\n');
    let n = lines[0].len() as int;
    let g = |l: Seq<char>| l.push('\r');
    assert forall|i: int| 0 <= i < n + 1 implies f(#[trigger] s[i]) by {
        if i < n {
            assert(s[i] == lines[0][i]);
        }
    }
    assert(s[n + 1] == '\n');
    text::lemma_span_unique(s, f, (n + 1) as nat);
    assert(s.take(n + 1) =~= lines[0].push('\r'));
    if lines.len() == 1 {
        let last = seq!['\r'];
        assert(s.skip(n + 2) =~= last);
        text::lemma_span_unique(last, f, 1);
        assert(text::split_on(last, '\n') =~= seq![last]);
        assert(text::split_on(s, '\n') =~= seq![lines[0].push('\r'), last]);
        assert(lines.map_values(g).push(last) =~= seq![lines[0].push('\r'), last]);
    } else {
        let rest = lines.drop_first();
        lemma_drop_first_block(lines);
        lemma_split_head(rest);
        assert(s.skip(n + 2) =~= head_text(rest) + end);
        assert(lines.map_values(g) =~= seq![lines[0].push('\r')] + rest.map_values(g));
        assert(text::split_on(s, '\n') =~= lines.map_values(g).push(seq!['\r']));
    }
}

/// A word, a space and a rest: the word comes first, then the words of the
/// rest.
proof fn lemma_words(w: Seq<char>, rest: Seq<char>)
    requires
        one_word(w),
    ensures
        text::words(w.push(' ') + rest) == seq![w] + text::words(rest),
        text::words(w) == seq![w],
{
    let s = w.push(' ') + rest;
    let n = w.len();
    assert(s[0] == w[0]);
    text::lemma_span_unique(s, text::white(), 0);
    text::lemma_span_unique(w, text::white(), 0);
    assert(s.skip(0) =~= s);
    assert(w.skip(0) =~= w);
    assert forall|i: int| 0 <= i < n implies text::ink()(#[trigger] s[i]) by {
        assert(s[i] == w[i]);
    }
    assert(s[n as int] == ' ');
    text::lemma_span_unique(s, text::ink(), n);
    text::lemma_span_unique(w, text::ink(), n);
    assert(s.take(n as int) =~= w);
    assert(w.take(n as int) =~= w);
    let tail = s.skip(n as int);
    assert(tail =~= seq![' '] + rest);
    lemma_words_behind_space(rest);
    let none = w.skip(n as int);
    assert(none.len() == 0);
    text::lemma_span_unique(none, text::white(), 0);
    assert(none.skip(0) =~= none);
    text::lemma_span_unique(none, text::ink(), 0);
    assert(text::words(none) =~= Seq::<Seq<char>>::empty());
    assert(text::words(w) =~= seq![w]);
}

proof fn lemma_words_behind_space(rest: Seq<char>)
    ensures
        text::words(seq![' '] + rest) == text::words(rest),
{
    let s = seq![' '] + rest;
    assert(s.drop_first() =~= rest);
    assert(text::white()(s[0]));
    assert(text::span(s, text::white()) == 1 + text::span(rest, text::white()));
    text::lemma_span(rest, text::white());
    assert(text::strip_start(s, text::white()) =~= text::strip_start(rest, text::white()));
    text::lemma_span(rest, text::white());
    text::lemma_span(text::strip_start(rest, text::white()), text::ink());
}

/// The name of a header and what stands behind its colon.
proof fn lemma_field(name: Seq<char>, value: Seq<char>)
    requires
        forall|i: int| 0 <= i < name.len() ==> #[trigger] name[i] != ':',
    ensures
        text::split_first(name.push(':') + value, ':') == Some((name, value)),
{
    let s = name.push(':') + value;
    let n = name.len();
    assert forall|i: int| 0 <= i < n implies text::other_than(':')(#[trigger] s[i]) by {
        assert(s[i] == name[i]);
    }
    assert(s[n as int] == ':');
    text::lemma_span_unique(s, text::other_than(':'), n);
    assert(s.take(n as int) =~= name);
    assert(s.skip(n as int + 1) =~= value);
}

/// A line that begins with another letter than `content-length` says nothing
/// of the length.
proof fn lemma_other_initial(line: Seq<char>)
    requires
        line.len() > 0,
        line[0] != ':',
        text::ascii_small(line[0]) != 'c',
    ensures
        http::length_field(line) is None,
{
    let n = text::span(line, text::other_than(':')) as int;
    text::lemma_span(line, text::other_than(':'));
    if n < line.len() {
        let name = line.take(n);
        assert(n > 0);
        assert(name[0] == line[0]);
        reveal_strlit("content-length");
        assert(text::ascii_lower(name)[0] == text::ascii_small(name[0]));
        assert(text::ascii_lower("content-length"@)[0] == 'c');
    }
}

/// The lines of a JSON POST.
spec fn request_lines(host: Seq<char>, path: Seq<char>, length: nat) -> Seq<Seq<char>> {
    seq![
        "POST "@ + path + " HTTP/1.0"@,
        "Host: "@ + host,
        "Content-Type: application/json"@,
        "Content-Length: "@ + text::decimal(length),
        "Connection: close"@,
    ]
}

/// The lines of a response.
spec fn response_lines(
    status: u16,
    reason: Seq<char>,
    content_type: Seq<char>,
    length: nat,
) -> Seq<Seq<char>> {
    seq![
        "HTTP/1.0 "@ + text::decimal(status as nat) + " "@ + reason,
        "Content-Type: "@ + content_type,
        "Content-Length: "@ + text::decimal(length),
        "Connection: close"@,
    ]
}

proof fn lemma_decimal_is_word(n: nat)
    ensures
        one_word(text::decimal(n)),
        one_line(text::decimal(n)),
{
    text::lemma_decimal(n);
    assert forall|i: int| 0 <= i < text::decimal(n).len() implies !text::is_white(
        #[trigger] text::decimal(n)[i],
    ) && text::decimal(n)[i] != '\n' by {
        assert(text::is_digit(text::decimal(n)[i]));
    }
}

proof fn lemma_word_is_line(w: Seq<char>)
    requires
        one_word(w),
    ensures
        one_line(w),
{
    assert forall|i: int| 0 <= i < w.len() implies #[trigger] w[i] != '\n' by {
        assert(!text::is_white(w[i]));
    }
}

/// The head of a JSON POST is made of its lines.
proof fn lemma_request_head(host: Seq<char>, path: Seq<char>, length: nat)
    requires
        one_line(host),
        one_word(path),
    ensures
        header_block(request_lines(host, path, length)),
        bastion_client::request_head(host, path, length) == head_text(
            request_lines(host, path, length),
        ) + seq!['\r', '\n', '\r', '\n'],
{
    let lines = request_lines(host, path, length);
    let d = text::decimal(length);
    reveal_strlit("POST ");
    reveal_strlit(" HTTP/1.0");
    reveal_strlit("Host: ");
    reveal_strlit("Content-Type: application/json");
    reveal_strlit("Content-Length: ");
    reveal_strlit("Connection: close");
    reveal_strlit(" HTTP/1.0\r\nHost: ");
    reveal_strlit("\r\nContent-Type: application/json\r\nContent-Length: ");
    reveal_strlit("\r\nConnection: close\r\n\r\n");
    lemma_word_is_line(path);
    lemma_decimal_is_word(length);
    assert forall|i: int| 0 <= i < lines.len() implies one_line(#[trigger] lines[i])
        && lines[i].len() > 0 by {
        assert(one_line("POST "@ + path + " HTTP/1.0"@));
        assert(one_line("Host: "@ + host));
        assert(one_line("Content-Type: application/json"@));
        assert(one_line("Content-Length: "@ + d));
        assert(one_line("Connection: close"@));
    }
    let end = seq!['\r', '\n', '\r', '\n'];
    let a = "POST "@ + path;
    assert(" HTTP/1.0\r\nHost: "@ =~= " HTTP/1.0"@ + crlf() + "Host: "@);
    assert("\r\nContent-Type: application/json\r\nContent-Length: "@ =~= crlf()
        + "Content-Type: application/json"@ + crlf() + "Content-Length: "@);
    assert("\r\nConnection: close\r\n\r\n"@ =~= crlf() + "Connection: close"@ + end);
    let tail1 = lines.drop_first();
    let tail2 = tail1.drop_first();
    let tail3 = tail2.drop_first();
    let tail4 = tail3.drop_first();
    assert(head_text(tail4) == "Connection: close"@);
    assert(head_text(tail3) == "Content-Length: "@ + d + crlf() + "Connection: close"@);
    assert(head_text(tail2) == "Content-Type: application/json"@ + crlf() + head_text(tail3));
    assert(head_text(tail1) == "Host: "@ + host + crlf() + head_text(tail2));
    assert(head_text(lines) == a + " HTTP/1.0"@ + crlf() + head_text(tail1));
    assert(bastion_client::request_head(host, path, length) =~= head_text(lines) + end);
}

/// The head of a response is made of its lines.
proof fn lemma_response_head(status: u16, reason: Seq<char>, content_type: Seq<char>, length: nat)
    requires
        one_line(reason),
        one_line(content_type),
    ensures
        header_block(response_lines(status, reason, content_type, length)),
        http::response_head(status, reason, content_type, length) == head_text(
            response_lines(status, reason, content_type, length),
        ) + seq!['\r', '\n', '\r', '\n'],
{
    let lines = response_lines(status, reason, content_type, length);
    let d = text::decimal(length);
    let c = text::decimal(status as nat);
    reveal_strlit("HTTP/1.0 ");
    reveal_strlit(" ");
    reveal_strlit("Content-Type: ");
    reveal_strlit("Content-Length: ");
    reveal_strlit("Connection: close");
    reveal_strlit("\r\nContent-Type: ");
    reveal_strlit("\r\nContent-Length: ");
    reveal_strlit("\r\nConnection: close\r\n\r\n");
    lemma_decimal_is_word(length);
    lemma_decimal_is_word(status as nat);
    assert forall|i: int| 0 <= i < lines.len() implies one_line(#[trigger] lines[i])
        && lines[i].len() > 0 by {
        assert(one_line("HTTP/1.0 "@ + c + " "@ + reason));
        assert(one_line("Content-Type: "@ + content_type));
        assert(one_line("Content-Length: "@ + d));
        assert(one_line("Connection: close"@));
    }
    let end = seq!['\r', '\n', '\r', '\n'];
    assert("\r\nContent-Type: "@ =~= crlf() + "Content-Type: "@);
    assert("\r\nContent-Length: "@ =~= crlf() + "Content-Length: "@);
    assert("\r\nConnection: close\r\n\r\n"@ =~= crlf() + "Connection: close"@ + end);
    let tail1 = lines.drop_first();
    let tail2 = tail1.drop_first();
    let tail3 = tail2.drop_first();
    assert(head_text(tail3) == "Connection: close"@);
    assert(head_text(tail2) == "Content-Length: "@ + d + crlf() + "Connection: close"@);
    assert(head_text(tail1) == "Content-Type: "@ + content_type + crlf() + head_text(tail2));
    assert(http::response_head(status, reason, content_type, length) =~= head_text(lines) + end);
}

/// What the header lines of a JSON POST say of the length.
proof fn lemma_request_fields(host: Seq<char>, path: Seq<char>, length: nat)
    requires
        length <= usize::MAX,
    ensures
        http::length_field("POST "@ + path + " HTTP/1.0"@) is None,
        http::length_field("Host: "@ + host) is None,
        http::length_field("Content-Type: application/json"@) is None,
        http::length_field("Content-Length: "@ + text::decimal(length)) == Some(Some(length)),
        http::length_field("Connection: close"@) is None,
{
    let d = text::decimal(length);
    reveal_strlit("POST ");
    reveal_strlit("Host: ");
    reveal_strlit("Content-Type: application/json");
    reveal_strlit("Content-Length: ");
    reveal_strlit("Connection: close");
    reveal_strlit("content-length");
    reveal_strlit("Content-Type");
    reveal_strlit("Content-Length");
    reveal_strlit("Connection");
    reveal_strlit(" application/json");
    reveal_strlit(" close");
    let wanted = text::ascii_lower("content-length"@);
    lemma_other_initial("POST "@ + path + " HTTP/1.0"@);
    lemma_other_initial("Host: "@ + host);
    lemma_field("Content-Type"@, " application/json"@);
    assert("Content-Type: application/json"@ =~= "Content-Type"@.push(':') + " application/json"@);
    assert(text::ascii_lower("Content-Type"@).len() != wanted.len());
    lemma_field("Connection"@, " close"@);
    assert("Connection: close"@ =~= "Connection"@.push(':') + " close"@);
    assert(text::ascii_lower("Connection"@).len() != wanted.len());
    let value = seq![' '] + d;
    lemma_field("Content-Length"@, value);
    assert("Content-Length: "@ + d =~= "Content-Length"@.push(':') + value);
    assert(text::ascii_lower("Content-Length"@) =~= wanted);
    lemma_decimal_is_word(length);
    lemma_trim_space(d);
    text::law_number_of_decimal(length, usize::MAX as nat);
}

/// A word behind a space, trimmed, is the word.
proof fn lemma_trim_space(w: Seq<char>)
    requires
        one_word(w),
    ensures
        text::trimmed(seq![' '] + w) == w,
{
    let s = seq![' '] + w;
    assert(text::white()(s[0]));
    assert(s[1] == w[0]);
    text::lemma_span_unique(s, text::white(), 1);
    assert(s.skip(1) =~= w);
    assert(!text::is_white(w[w.len() - 1]));
}

/// A JSON POST as head and body.
proof fn lemma_request_wire(host: Seq<char>, path: Seq<char>, body: Seq<u8>)
    requires
        one_line(host),
        one_word(path),
    ensures
        header_block(request_lines(host, path, body.len())),
        bastion_client::request_wire(host, path, body) == head_bytes(
            request_lines(host, path, body.len()),
        ) + body,
{
    let lines = request_lines(host, path, body.len());
    lemma_request_head(host, path, body.len());
    lemma_encode_crlf();
    lemma_encode_concat(head_text(lines), seq!['\r', '\n', '\r', '\n']);
}

proof fn lemma_request_dissects(host: Seq<char>, path: Seq<char>, body: Seq<u8>)
    requires
        one_line(host),
        one_word(path),
        body.len() <= usize::MAX,
    ensures
        http::dissect(bastion_client::request_wire(host, path, body)) == Ok::<
            (Seq<char>, Seq<char>, int, nat),
            http::ParseError,
        >(
            (
                "POST"@,
                path,
                bastion_client::request_wire(host, path, body).len() - body.len(),
                body.len(),
            ),
        ),
{
    let wire = bastion_client::request_wire(host, path, body);
    let lines = request_lines(host, path, body.len());
    lemma_request_wire(host, path, body);
    lemma_terminator_of_prefix(lines, body, wire.len() as int);
    assert(wire.take(wire.len() as int) =~= wire);
    let end = head_bytes(lines).len() - 4;
    let head = vstd::utf8::encode_utf8(head_text(lines));
    assert(wire.take(end) =~= head);
    vstd::utf8::encode_utf8_valid_utf8(head_text(lines));
    vstd::utf8::encode_utf8_decode_utf8(head_text(lines));
    lemma_header_lines(lines);
    reveal_strlit("POST ");
    reveal_strlit("POST");
    reveal_strlit(" HTTP/1.0");
    reveal_strlit("HTTP/1.0");
    let rest = path.push(' ') + "HTTP/1.0"@;
    assert("POST "@ + path + " HTTP/1.0"@ =~= "POST"@.push(' ') + rest);
    lemma_words("POST"@, rest);
    lemma_words(path, "HTTP/1.0"@);
    lemma_words("HTTP/1.0"@, seq![]);
    lemma_request_fields(host, path, body.len());
    let fields = lines.drop_first();
    let f3 = fields.drop_last();
    let f2 = f3.drop_last();
    let f1 = f2.drop_last();
    let f0 = f1.drop_last();
    assert(http::declared_length(f0) == Some(0nat));
    assert(f1.last() == "Host: "@ + host);
    assert(http::declared_length(f1) == Some(0nat));
    assert(f2.last() == "Content-Type: application/json"@);
    assert(http::declared_length(f2) == Some(0nat));
    assert(f3.last() == "Content-Length: "@ + text::decimal(body.len()));
    assert(http::declared_length(f3) == Some(body.len()));
    assert(fields.last() == "Connection: close"@);
    assert(http::declared_length(fields) == Some(body.len()));
}

/// A request that holds what a client sent.
pub open spec fn is_post(answer: Request, path: Seq<char>, body: Seq<u8>) -> bool {
    answer.method@ == "POST"@ && answer.path@ == path && answer.body@ == body
}

/// What the client builds, the server parses: method, path and body come out
/// as they went in.
pub proof fn law_request_reads_back(
    host: Seq<char>,
    path: Seq<char>,
    body: Seq<u8>,
    answer: Result<Request, http::ParseError>,
)
    requires
        one_line(host),
        one_word(path),
        bastion_client::request_wire(host, path, body).len() <= usize::MAX,
        http::parsed(bastion_client::request_wire(host, path, body), answer),
    ensures
        answer matches Ok(r) && is_post(r, path, body),
{
    let wire = bastion_client::request_wire(host, path, body);
    lemma_request_dissects(host, path, body);
    let start = wire.len() - body.len();
    assert(wire.subrange(start, start + body.len()) =~= body);
}

proof fn lemma_expected_end(host: Seq<char>, path: Seq<char>, body: Seq<u8>, n: int)
    requires
        one_line(host),
        one_word(path),
        body.len() <= usize::MAX,
        0 <= n <= bastion_client::request_wire(host, path, body).len(),
    ensures
        http::expected_end(bastion_client::request_wire(host, path, body).take(n)) is None
            || http::expected_end(bastion_client::request_wire(host, path, body).take(n)) == Some(
            bastion_client::request_wire(host, path, body).len() as int,
        ),
        n == bastion_client::request_wire(host, path, body).len() ==> http::expected_end(
            bastion_client::request_wire(host, path, body).take(n),
        ) is Some,
{
    let wire = bastion_client::request_wire(host, path, body);
    let part = wire.take(n);
    let lines = request_lines(host, path, body.len());
    lemma_request_wire(host, path, body);
    lemma_terminator_of_prefix(lines, body, n);
    let start = head_bytes(lines).len() as int;
    if n >= start {
        let end = seq!['\r', '\n', '\r'];
        let head = head_text(lines) + end;
        lemma_encode_crlf();
        lemma_encode_concat(head_text(lines), end);
        assert(part.take(start - 1) =~= vstd::utf8::encode_utf8(head));
        vstd::utf8::encode_utf8_valid_utf8(head);
        vstd::utf8::encode_utf8_decode_utf8(head);
        lemma_split_head(lines);
        lemma_request_fields(host, path, body.len());
        let all = http::early_lines(part, start);
        let g = |l: Seq<char>| l.push('\r');
        assert(all =~= lines.map_values(g).push(seq!['\r']));
        let t1 = all.drop_first();
        let t2 = t1.drop_first();
        let t3 = t2.drop_first();
        reveal_strlit("POST ");
        reveal_strlit("Host: ");
        assert(all[0] == lines[0].push('\r'));
        assert(all[0][0] == 'P');
        assert(t1[0] == lines[1].push('\r'));
        assert(t1[0][0] == 'H');
        lemma_early_other(all[0]);
        lemma_early_other(t1[0]);
        lemma_early_type();
        lemma_early_number(body.len());
        assert(t2[0] == "Content-Type: application/json"@.push('\r'));
        assert(t3[0] == ("Content-Length: "@ + text::decimal(body.len())).push('\r'));
        assert(http::early_length(t3) == body.len());
        assert(http::early_length(t2) == body.len());
        assert(http::early_length(t1) == body.len());
        assert(http::early_length(all) == body.len());
    }
}

proof fn lemma_strip_one(s: Seq<char>)
    requires
        s.len() > 0,
        s.last() != '\r',
    ensures
        text::strip_end(s.push('\r'), text::equal_to('\r')) == s,
{
    let f = text::equal_to('\r');
    assert(s.push('\r').drop_last() =~= s);
    assert(f(s.push('\r').last()) && !f(s.last()));
    assert(text::strip_end(s, f) == s);
}

proof fn lemma_early_other(line: Seq<char>)
    requires
        line.len() > 0,
        line[0] == 'P' || line[0] == 'H',
    ensures
        http::length_field(text::strip_end(line, text::equal_to('\r'))) is None,
{
    let s = text::strip_end(line, text::equal_to('\r'));
    text::lemma_strip_end(line, text::equal_to('\r'));
    if s.len() == 0 {
        assert(text::equal_to('\r')(line[0]));
    } else {
        assert(s[0] == line[0]);
        lemma_other_initial(s);
    }
}

proof fn lemma_early_type()
    ensures
        http::length_field(
            text::strip_end("Content-Type: application/json"@.push('\r'), text::equal_to('\r')),
        ) is None,
{
    reveal_strlit("Content-Type: application/json");
    lemma_strip_one("Content-Type: application/json"@);
    lemma_request_fields(seq![], seq![], 0);
}

proof fn lemma_early_number(n: nat)
    requires
        n <= usize::MAX,
    ensures
        http::length_field(
            text::strip_end(
                ("Content-Length: "@ + text::decimal(n)).push('\r'),
                text::equal_to('\r'),
            ),
        ) == Some(Some(n)),
{
    let s = "Content-Length: "@ + text::decimal(n);
    text::lemma_decimal(n);
    assert(s.last() == text::decimal(n).last());
    assert(text::is_digit(text::decimal(n)[text::decimal(n).len() - 1]));
    lemma_strip_one(s);
    lemma_request_fields(seq![], seq![], n);
}

proof fn lemma_gathered_len(reads: Seq<Result<Vec<u8>, String>>)
    requires
        reads.len() > 0,
    ensures
        http::gathered(reads).len() >= reads[0]->Ok_0@.len(),
        http::gathered(reads).len() >= reads.last()->Ok_0@.len(),
        http::gathered(reads.drop_last()).len() + reads.last()->Ok_0@.len() == http::gathered(reads).len(),
    decreases reads.len(),
{
    if reads.len() > 1 {
        lemma_gathered_len(reads.drop_first());
        assert(reads.drop_first().drop_last() =~= reads.drop_last().drop_first());
        assert(reads.drop_last()[0] == reads[0]);
    } else {
        assert(http::gathered(reads.drop_first()).len() == 0);
        assert(http::gathered(reads.drop_last()).len() == 0);
    }
}

proof fn lemma_reading(
    host: Seq<char>,
    path: Seq<char>,
    body: Seq<u8>,
    n: int,
    reads: Seq<Result<Vec<u8>, String>>,
    more: Seq<Result<Vec<u8>, String>>,
    answer: Result<Request, RequestError>,
)
    requires
        one_line(host),
        one_word(path),
        bastion_client::request_wire(host, path, body).len() <= http::MAX_REQUEST,
        0 <= n <= bastion_client::request_wire(host, path, body).len(),
        reads.len() > 0,
        forall|i: int|
            0 <= i < reads.len() ==> (#[trigger] reads[i] is Ok) && reads[i]->Ok_0@.len() > 0,
        bastion_client::request_wire(host, path, body) == bastion_client::request_wire(
            host,
            path,
            body,
        ).take(n) + http::gathered(reads),
    ensures
        http::reading(
            bastion_client::request_wire(host, path, body).take(n),
            reads + more,
            answer,
        ) ==> (answer matches Ok(r) && is_post(r, path, body)),
        http::received(bastion_client::request_wire(host, path, body).take(n), reads + more)
            == bastion_client::request_wire(host, path, body),
    decreases reads.len(),
{
    let wire = bastion_client::request_wire(host, path, body);
    let buf = wire.take(n);
    let chunk = reads[0]->Ok_0@;
    let rest = reads.drop_first();
    let m = n + chunk.len();
    assert((reads + more)[0] == reads[0]);
    assert((reads + more).drop_first() =~= rest + more);
    assert(reads[0] is Ok && chunk.len() > 0);
    lemma_gathered_len(reads);
    assert(wire.len() == n + http::gathered(reads).len());
    let all = buf + chunk;
    assert(all =~= wire.take(m)) by {
        assert(wire =~= buf + chunk + http::gathered(rest));
    }
    lemma_expected_end(host, path, body, m);
    lemma_request_dissects(host, path, body);
    assert(wire.take(wire.len() as int) =~= wire);
    if rest.len() == 0 {
        assert(http::gathered(rest).len() == 0);
        assert(all == wire);
        assert(http::complete(all));
        let start = wire.len() - body.len();
        assert(wire.subrange(start, start + body.len()) =~= body);
    } else {
        assert forall|i: int| 0 <= i < rest.len() implies (#[trigger] rest[i] is Ok)
            && rest[i]->Ok_0@.len() > 0 by {
            assert(rest[i] == reads[i + 1]);
        }
        lemma_gathered_len(rest);
        assert(rest[0]->Ok_0@.len() > 0);
        assert(m < wire.len());
        assert(!http::complete(all));
        assert(wire =~= wire.take(m) + http::gathered(rest));
        assert(http::fed(buf, reads[0], None));
        lemma_reading(host, path, body, m, rest, more, answer);
    }
}

/// However the network cuts up what the client sent, the server reads the
/// request back, as long as it is not longer than the cap. It takes the bytes of
/// the request and no more: whatever further reads would give, none is made once
/// the last byte is there.
pub proof fn law_request_survives_any_split(
    host: Seq<char>,
    path: Seq<char>,
    body: Seq<u8>,
    reads: Seq<Result<Vec<u8>, String>>,
    more: Seq<Result<Vec<u8>, String>>,
    answer: Result<Request, RequestError>,
)
    requires
        one_line(host),
        one_word(path),
        bastion_client::request_wire(host, path, body).len() <= http::MAX_REQUEST,
        forall|i: int|
            0 <= i < reads.len() ==> (#[trigger] reads[i] is Ok) && reads[i]->Ok_0@.len() > 0,
        http::gathered(reads) == bastion_client::request_wire(host, path, body),
        http::reading(Seq::empty(), reads + more, answer),
    ensures
        answer matches Ok(r) && is_post(r, path, body),
        http::received(Seq::empty(), reads + more) == bastion_client::request_wire(
            host,
            path,
            body,
        ),
{
    let wire = bastion_client::request_wire(host, path, body);
    lemma_request_wire(host, path, body);
    lemma_terminator_of_prefix(request_lines(host, path, body.len()), body, wire.len() as int);
    assert(wire.len() > 0);
    assert(wire.take(0) =~= Seq::<u8>::empty());
    assert(wire =~= wire.take(0) + http::gathered(reads));
    lemma_reading(host, path, body, 0, reads, more, answer);
}

proof fn lemma_response_wire(response: Response)
    requires
        one_line(response.reason@),
        one_line(response.content_type@),
    ensures
        bastion_client::dissect(response.wire()) == Ok::<(u16, int), bastion_client::ClientError>(
            (response.status, response.wire().len() - response.body@.len()),
        ),
{
    let wire = response.wire();
    let body = response.body@;
    let n = body.len();
    let lines = response_lines(response.status, response.reason@, response.content_type@, n);
    lemma_response_head(response.status, response.reason@, response.content_type@, n);
    lemma_encode_crlf();
    lemma_encode_concat(head_text(lines), seq!['\r', '\n', '\r', '\n']);
    assert(wire =~= head_bytes(lines) + body);
    lemma_head_ends(lines, body);
    let end = head_bytes(lines).len() - 4;
    assert(wire.take(end) =~= vstd::utf8::encode_utf8(head_text(lines)));
    vstd::utf8::encode_utf8_valid_utf8(head_text(lines));
    vstd::utf8::encode_utf8_decode_utf8(head_text(lines));
    lemma_header_lines(lines);
    reveal_strlit("HTTP/1.0 ");
    reveal_strlit("HTTP/1.0");
    reveal_strlit(" ");
    let d = text::decimal(response.status as nat);
    let rest = d.push(' ') + response.reason@;
    assert(lines[0] =~= "HTTP/1.0"@.push(' ') + rest);
    lemma_decimal_is_word(response.status as nat);
    lemma_words("HTTP/1.0"@, rest);
    lemma_words(d, response.reason@);
    text::law_number_of_decimal(response.status as nat, u16::MAX as nat);
    assert(text::words(lines[0])[1] == d);
    assert(lines[0].len() > 0);
    if head_text(lines).len() == 0 {
        assert(head_text(lines)[0] == lines[0][0]);
    }
}

/// What the server writes, the client takes apart: status and body come out as
/// they went in, whatever bytes the body holds.
pub proof fn law_response_parses(
    response: Response,
    answer: Result<bastion_client::HttpResponse, bastion_client::ClientError>,
)
    requires
        one_line(response.reason@),
        one_line(response.content_type@),
        bastion_client::taken_apart(response.wire(), answer),
    ensures
        answer matches Ok(h) && h.status == response.status && h.body@ == response.body@,
{
    lemma_response_wire(response);
    let wire = response.wire();
    assert(wire.skip(wire.len() - response.body@.len()) =~= response.body@);
}

/// The beginning of a text without a line feed is the beginning of its first line,
/// where a space ends it.
proof fn lemma_first_line_starts(whole: Seq<char>, start: Seq<char>)
    requires
        start.len() <= whole.len(),
        whole.take(start.len() as int) == start,
        one_line(start),
        start.len() > 0,
        start.last() == ' ',
    ensures
        text::first_line(whole) matches Some(line) && start.len() <= line.len() && line.take(
            start.len() as int,
        ) == start,
{
    let n = start.len() as int;
    let f = text::other_than('\n');
    let end = text::span(whole, f) as int;
    text::lemma_span(whole, f);
    if end < n {
        assert(whole[end] == start[end]);
    }
    if end < whole.len() {
        let raw = whole.take(end);
        let line = text::without_cr(raw);
        assert(text::header_lines(whole)[0] == line);
        assert(raw.take(n) =~= start);
        assert(raw[n - 1] == start[n - 1]);
        assert(line.take(n) =~= start);
    }
}

/// The words of a line that begins with the version and a word.
proof fn lemma_second_word(line: Seq<char>, d: Seq<char>)
    requires
        one_word(d),
        line.len() >= d.len() + 10,
        line.take(d.len() as int + 10) == "HTTP/1.0 "@ + d + " "@,
    ensures
        text::words(line).len() >= 2,
        text::words(line)[1] == d,
{
    reveal_strlit("HTTP/1.0 ");
    reveal_strlit("HTTP/1.0");
    reveal_strlit(" ");
    let n = d.len() as int + 10;
    let rest = line.skip(n);
    let start = "HTTP/1.0 "@ + d + " "@;
    assert(line =~= start + rest);
    assert(line =~= "HTTP/1.0"@.push(' ') + (d.push(' ') + rest));
    lemma_words("HTTP/1.0"@, d.push(' ') + rest);
    lemma_words(d, rest);
}

/// The health check reads the status of whatever the server writes with a body of
/// UTF-8.
pub proof fn law_status_reads_back(response: Response, answer: Result<u16, runner::StatusError>)
    requires
        vstd::utf8::valid_utf8(response.body@),
        runner::status_of(response.wire(), answer),
    ensures
        answer == Ok::<u16, runner::StatusError>(response.status),
{
    let head = http::response_head(
        response.status,
        response.reason@,
        response.content_type@,
        response.body@.len(),
    );
    let tail = vstd::utf8::decode_utf8(response.body@);
    let whole = head + tail;
    let d = text::decimal(response.status as nat);
    let start = "HTTP/1.0 "@ + d + " "@;
    assert(vstd::utf8::valid_utf8(response.wire()) && vstd::utf8::decode_utf8(response.wire())
        == whole) by {
        vstd::utf8::decode_utf8_encode_utf8(response.body@);
        lemma_encode_concat(head, tail);
        vstd::utf8::encode_utf8_valid_utf8(whole);
        vstd::utf8::encode_utf8_decode_utf8(whole);
    }
    lemma_decimal_is_word(response.status as nat);
    assert(start.len() == d.len() + 10 && start.last() == ' ' && one_line(start)) by {
        reveal_strlit("HTTP/1.0 ");
        reveal_strlit(" ");
    }
    assert(whole.take(start.len() as int) =~= start);
    lemma_first_line_starts(whole, start);
    lemma_second_word(text::first_line(whole)->0, d);
    text::law_number_of_decimal(response.status as nat, u16::MAX as nat);
}

/// What the server writes, the client parses: a response of a status from 200
/// up to 299 comes out with its status and body, any other as a refusal with
/// its status and its body as text.
pub proof fn law_response_reads_back(
    response: Response,
    raw: Vec<u8>,
    answer: Result<bastion_client::HttpResponse, bastion_client::ClientError>,
)
    requires
        one_line(response.reason@),
        one_line(response.content_type@),
        raw@ == response.wire(),
        bastion_client::posted(Ok(raw), answer),
    ensures
        if 200 <= response.status < 300 {
            answer matches Ok(h) && h.status == response.status && h.body@ == response.body@
        } else {
            answer matches Err(bastion_client::ClientError::Refused { status, body }) && status
                == response.status && body@ == text::lossy(response.body@)
        },
{
    lemma_response_wire(response);
    let wire = response.wire();
    assert(wire.skip(wire.len() - response.body@.len()) =~= response.body@);
}

/// What the bastion does about a registration, the laptop learns: it gets the
/// port that the pair now has, or, where nothing was registered, the refusal,
/// and then the registry is what it was.
pub proof fn law_registration_reaches_client(
    range: PortRange,
    before: Map<Seq<char>, u16>,
    request: RegisterRequest,
    response: Response,
    after: Map<Seq<char>, u16>,
    raw: Vec<u8>,
    answer: Result<bastion_client::HttpResponse, bastion_client::ClientError>,
)
    requires
        handlers::register_answered(range, before, Ok(request), response, after),
        raw@ == response.wire(),
        bastion_client::posted(Ok(raw), answer),
    ensures
        match answer {
            Ok(h) => {
                let name = registry::composite((request.user@, request.service@));
                &&& after.dom().contains(name)
                &&& h.body@ == vstd::utf8::encode_utf8(common::port_json(after[name]))
            },
            Err(e) => {
                &&& after == before
                &&& e matches bastion_client::ClientError::Refused { status, .. } && (status == 400
                    || status == 503)
            },
        },
{
    reveal_strlit("OK");
    reveal_strlit("Bad Request");
    reveal_strlit("Service Unavailable");
    reveal_strlit("application/json");
    law_response_reads_back(response, raw, answer);
}

} // verus!
