//! What a reader of JSON finds in the files that the library writes.

use vstd::prelude::*;
use crate::common;
use crate::json_laws;
use crate::registry;
use crate::registry::PortRange;
use crate::saved_state;
use crate::state;
use crate::state::SessionView;
use crate::text;

verus! {

/// A part of a JSON text.
pub enum Token {
    /// A brace, a bracket, a colon or a comma.
    Mark(char),
    Text(Seq<char>),
    Number(nat),
    Null,
}

pub open spec fn is_gap(c: char) -> bool {
    c == ' ' || c == '\n'
}

/// The first part of a text that begins with one, and what comes behind it.
pub open spec fn read_token(s: Seq<char>) -> Option<(Token, Seq<char>)> {
    if s.len() > 0 && (s[0] == '{' || s[0] == '}' || s[0] == '[' || s[0] == ']' || s[0] == ':'
        || s[0] == ',') {
        Some((Token::Mark(s[0]), s.skip(1)))
    } else {
        match json_laws::read_scalar(s) {
            Some((json_laws::Scalar::Text(t), rest)) => Some((Token::Text(t), rest)),
            Some((json_laws::Scalar::Number(n), rest)) => Some((Token::Number(n), rest)),
            Some((json_laws::Scalar::Null, rest)) => Some((Token::Null, rest)),
            None => None,
        }
    }
}

/// The parts of a JSON text, whatever blanks and line ends stand between them.
pub open spec fn tokens(s: Seq<char>) -> Option<Seq<Token>>
    decreases s.len(),
{
    if s.len() == 0 {
        Some(seq![])
    } else if is_gap(s[0]) {
        tokens(s.skip(1))
    } else {
        match read_token(s) {
            Some((token, rest)) => if rest.len() < s.len() {
                before(seq![token], tokens(rest))
            } else {
                None
            },
            None => None,
        }
    }
}

/// These parts, and then the others.
pub open spec fn before(first: Seq<Token>, rest: Option<Seq<Token>>) -> Option<Seq<Token>> {
    match rest {
        Some(r) => Some(first + r),
        None => None,
    }
}

/// The text, with this behind it, reads as these parts and then what that reads as.
#[verifier::opaque]
spec fn reads_as(piece: Seq<char>, parts: Seq<Token>, rest: Seq<char>) -> bool {
    tokens(piece + rest) == before(parts, tokens(rest))
}

proof fn lemma_then(
    a: Seq<char>,
    x: Seq<Token>,
    b: Seq<char>,
    y: Seq<Token>,
    rest: Seq<char>,
)
    requires
        reads_as(a, x, b + rest),
        reads_as(b, y, rest),
    ensures
        reads_as(a + b, x + y, rest),
{
    reveal(reads_as);
    assert(a + b + rest =~= a + (b + rest));
    if let Some(r) = tokens(rest) {
        assert(x + (y + r) =~= x + y + r);
    }
}

proof fn lemma_gaps(gaps: Seq<char>, rest: Seq<char>)
    requires
        forall|i: int| 0 <= i < gaps.len() ==> is_gap(#[trigger] gaps[i]),
    ensures
        reads_as(gaps, seq![], rest),
    decreases gaps.len(),
{
    reveal(reads_as);
    let whole = gaps + rest;
    if gaps.len() == 0 {
        assert(whole =~= rest);
    } else {
        assert(is_gap(gaps[0]));
        assert(whole[0] == gaps[0]);
        assert(whole.skip(1) =~= gaps.skip(1) + rest);
        lemma_gaps(gaps.skip(1), rest);
    }
    if let Some(r) = tokens(rest) {
        assert(seq![] + r =~= r);
    }
}

proof fn lemma_mark(c: char, rest: Seq<char>)
    requires
        c == '{' || c == '}' || c == '[' || c == ']' || c == ':' || c == ',',
    ensures
        reads_as(seq![c], seq![Token::Mark(c)], rest),
{
    reveal(reads_as);
    let whole = seq![c] + rest;
    assert(whole.skip(1) =~= rest);
}

proof fn lemma_text(s: Seq<char>, rest: Seq<char>)
    ensures
        reads_as(common::json_text(s), seq![Token::Text(s)], rest),
{
    reveal(reads_as);
    json_laws::law_string_reads_back(s, rest);
    json_laws::lemma_text(s, rest);
}

proof fn lemma_number(n: nat, rest: Seq<char>)
    requires
        n <= u64::MAX,
        rest.len() > 0 ==> !('0' <= rest[0] <= '9'),
    ensures
        reads_as(text::decimal(n), seq![Token::Number(n)], rest),
{
    reveal(reads_as);
    let d = text::decimal(n);
    text::lemma_decimal(n);
    json_laws::law_number_reads_back(n as u64, rest);
    assert((d + rest)[0] == d[0]);
    assert(text::is_digit(d[0]));
    assert((d + rest).len() > rest.len());
}

proof fn lemma_null(rest: Seq<char>)
    ensures
        reads_as("null"@, seq![Token::Null], rest),
{
    reveal(reads_as);
    reveal_strlit("null");
    let whole = "null"@ + rest;
    assert(whole.take(4) =~= seq!['n', 'u', 'l', 'l']);
    assert(whole.skip(4) =~= rest);
}

/// A mark, blanks, a name between quotes, a colon and a blank.
spec fn label(mark: char, gaps: Seq<char>, name: Seq<char>) -> Seq<char> {
    seq![mark] + gaps + (seq!['"'] + name + seq!['"']) + seq![':', ' ']
}

proof fn lemma_label(mark: char, gaps: Seq<char>, name: Seq<char>, rest: Seq<char>)
    requires
        mark == '{' || mark == ',',
        forall|i: int| 0 <= i < gaps.len() ==> is_gap(#[trigger] gaps[i]),
        forall|i: int|
            0 <= i < name.len() ==> (#[trigger] name[i]) as u32 >= 0x20 && name[i] != '"' && name[i]
                != '\\',
    ensures
        reads_as(
            label(mark, gaps, name),
            seq![Token::Mark(mark), Token::Text(name), Token::Mark(':')],
            rest,
        ),
{
    let quoted = seq!['"'] + name + seq!['"'];
    let end = seq![':', ' '];
    let none = Seq::<Token>::empty();
    lemma_gaps(seq![' '], rest);
    lemma_mark(':', seq![' '] + rest);
    lemma_then(seq![':'], seq![Token::Mark(':')], seq![' '], none, rest);
    assert(seq![':'] + seq![' '] =~= end);
    assert(seq![Token::Mark(':')] + none =~= seq![Token::Mark(':')]);
    lemma_name(name, end + rest);
    lemma_then(quoted, seq![Token::Text(name)], end, seq![Token::Mark(':')], rest);
    lemma_gaps(gaps, quoted + end + rest);
    let tail = seq![Token::Text(name)] + seq![Token::Mark(':')];
    lemma_then(gaps, none, quoted + end, tail, rest);
    assert(none + tail =~= tail);
    lemma_mark(mark, gaps + (quoted + end) + rest);
    lemma_then(seq![mark], seq![Token::Mark(mark)], gaps + (quoted + end), tail, rest);
    assert(seq![mark] + (gaps + (quoted + end)) =~= label(mark, gaps, name));
    assert(seq![Token::Mark(mark)] + tail =~= seq![
        Token::Mark(mark),
        Token::Text(name),
        Token::Mark(':'),
    ]);
}

proof fn lemma_name(name: Seq<char>, rest: Seq<char>)
    requires
        forall|i: int|
            0 <= i < name.len() ==> (#[trigger] name[i]) as u32 >= 0x20 && name[i] != '"' && name[i]
                != '\\',
    ensures
        reads_as(seq!['"'] + name + seq!['"'], seq![Token::Text(name)], rest),
{
    reveal(reads_as);
    let piece = seq!['"'] + name + seq!['"'];
    let whole = piece + rest;
    json_laws::lemma_plain(name, rest);
    assert(whole.skip(1) =~= name + seq!['"'] + rest);
}

/// A label and its value.
proof fn lemma_labelled(
    mark: char,
    gaps: Seq<char>,
    name: Seq<char>,
    value: Seq<char>,
    token: Token,
    rest: Seq<char>,
)
    requires
        mark == '{' || mark == ',',
        forall|i: int| 0 <= i < gaps.len() ==> is_gap(#[trigger] gaps[i]),
        forall|i: int|
            0 <= i < name.len() ==> (#[trigger] name[i]) as u32 >= 0x20 && name[i] != '"' && name[i]
                != '\\',
        reads_as(value, seq![token], rest),
    ensures
        reads_as(label(mark, gaps, name) + value, named(mark, name, token), rest),
{
    lemma_label(mark, gaps, name, value + rest);
    let first = seq![Token::Mark(mark), Token::Text(name), Token::Mark(':')];
    lemma_then(label(mark, gaps, name), first, value, seq![token], rest);
    assert(first + seq![token] =~= named(mark, name, token));
}

/// A mark, a name, a colon and a value.
pub open spec fn named(mark: char, name: Seq<char>, value: Token) -> Seq<Token> {
    seq![Token::Mark(mark), Token::Text(name), Token::Mark(':'), value]
}

/// The parts of the registry's entries, each behind a comma but the first.
pub open spec fn entry_tokens(list: Seq<(Seq<char>, u16)>) -> Seq<Token>
    decreases list.len(),
{
    if list.len() == 0 {
        seq![]
    } else {
        let (name, port) = list.last();
        let entry = seq![Token::Text(name), Token::Mark(':'), Token::Number(port as nat)];
        if list.len() == 1 {
            entry
        } else {
            entry_tokens(list.drop_last()) + seq![Token::Mark(',')] + entry
        }
    }
}

/// The parts of the registry's file: the two ends of its range, and its entries.
pub open spec fn registry_tokens(range: PortRange, list: Seq<(Seq<char>, u16)>) -> Seq<Token> {
    seq![
        Token::Mark('{'),
        Token::Text("range"@),
        Token::Mark(':'),
        Token::Mark('{'),
        Token::Text("start"@),
        Token::Mark(':'),
        Token::Number(range.start as nat),
        Token::Mark(','),
        Token::Text("end"@),
        Token::Mark(':'),
        Token::Number(range.end as nat),
        Token::Mark('}'),
        Token::Mark(','),
        Token::Text("entries"@),
        Token::Mark(':'),
        Token::Mark('{'),
    ] + entry_tokens(list) + seq![Token::Mark('}'), Token::Mark('}')]
}

proof fn lemma_entry(entry: (Seq<char>, u16), rest: Seq<char>)
    requires
        rest.len() > 0 ==> !('0' <= rest[0] <= '9'),
    ensures
        reads_as(
            registry::entry_line(entry),
            seq![Token::Text(entry.0), Token::Mark(':'), Token::Number(entry.1 as nat)],
            rest,
        ),
{
    reveal_strlit("    ");
    reveal_strlit(": ");
    let name = common::json_text(entry.0);
    let number = text::decimal(entry.1 as nat);
    let none = Seq::<Token>::empty();
    let n = seq![Token::Number(entry.1 as nat)];
    lemma_number(entry.1 as nat, rest);
    lemma_gaps(seq![' '], number + rest);
    lemma_then(seq![' '], none, number, n, rest);
    lemma_mark(':', seq![' '] + number + rest);
    lemma_then(seq![':'], seq![Token::Mark(':')], seq![' '] + number, none + n, rest);
    let tail = seq![':'] + (seq![' '] + number);
    let parts = seq![Token::Mark(':')] + (none + n);
    lemma_text(entry.0, tail + rest);
    lemma_then(name, seq![Token::Text(entry.0)], tail, parts, rest);
    lemma_gaps("    "@, name + tail + rest);
    lemma_then("    "@, none, name + tail, seq![Token::Text(entry.0)] + parts, rest);
    assert("    "@ + (name + tail) =~= registry::entry_line(entry));
    assert(none + (seq![Token::Text(entry.0)] + parts) =~= seq![
        Token::Text(entry.0),
        Token::Mark(':'),
        Token::Number(entry.1 as nat),
    ]);
}

proof fn lemma_entries(list: Seq<(Seq<char>, u16)>, rest: Seq<char>)
    requires
        list.len() > 0,
        rest.len() > 0 ==> !('0' <= rest[0] <= '9'),
    ensures
        reads_as(
            text::joined(list.map_values(|e: (Seq<char>, u16)| registry::entry_line(e)), ",\n"@),
            entry_tokens(list),
            rest,
        ),
    decreases list.len(),
{
    let f = |e: (Seq<char>, u16)| registry::entry_line(e);
    let lines = list.map_values(f);
    let last = list.last();
    let entry = seq![Token::Text(last.0), Token::Mark(':'), Token::Number(last.1 as nat)];
    lemma_entry(last, rest);
    if list.len() == 1 {
        assert(text::joined(lines, ",\n"@) == registry::entry_line(last));
    } else {
        let front = list.drop_last();
        let line = registry::entry_line(last);
        let none = Seq::<Token>::empty();
        reveal_strlit(",\n");
        lemma_gaps(seq!['\n'], line + rest);
        lemma_then(seq!['\n'], none, line, entry, rest);
        lemma_mark(',', seq!['\n'] + line + rest);
        let comma = seq![Token::Mark(',')];
        lemma_then(seq![','], comma, seq!['\n'] + line, none + entry, rest);
        let tail = seq![','] + (seq!['\n'] + line);
        assert(tail =~= ",\n"@ + line);
        lemma_entries(front, tail + rest);
        let head = text::joined(front.map_values(f), ",\n"@);
        lemma_then(head, entry_tokens(front), tail, comma + (none + entry), rest);
        assert(lines.drop_last() =~= front.map_values(f));
        assert(text::joined(lines, ",\n"@) =~= head + tail);
        assert(entry_tokens(front) + (comma + (none + entry)) =~= entry_tokens(list));
    }
}

/// The entries as they stand between their braces.
spec fn entries_text(list: Seq<(Seq<char>, u16)>) -> Seq<char> {
    if list.len() == 0 {
        Seq::<char>::empty()
    } else {
        seq!['\n'] + text::joined(
            list.map_values(|e: (Seq<char>, u16)| registry::entry_line(e)),
            ",\n"@,
        ) + seq!['\n', ' ', ' ']
    }
}

proof fn lemma_entries_text(list: Seq<(Seq<char>, u16)>, rest: Seq<char>)
    requires
        rest.len() > 0 ==> !('0' <= rest[0] <= '9'),
    ensures
        reads_as(entries_text(list), entry_tokens(list), rest),
{
    let none = Seq::<Token>::empty();
    if list.len() == 0 {
        lemma_gaps(Seq::<char>::empty(), rest);
    } else {
        let lines = text::joined(
            list.map_values(|e: (Seq<char>, u16)| registry::entry_line(e)),
            ",\n"@,
        );
        let after = seq!['\n', ' ', ' '];
        lemma_gaps(after, rest);
        lemma_entries(list, after + rest);
        lemma_then(lines, entry_tokens(list), after, none, rest);
        lemma_gaps(seq!['\n'], lines + after + rest);
        lemma_then(seq!['\n'], none, lines + after, entry_tokens(list) + none, rest);
        assert(seq!['\n'] + (lines + after) =~= entries_text(list));
        assert(none + (entry_tokens(list) + none) =~= entry_tokens(list));
    }
}

/// The two braces that end a file, each on its line.
proof fn lemma_two_braces()
    ensures
        reads_as(
            seq!['}', '\n', '}'],
            seq![Token::Mark('}'), Token::Mark('}')],
            Seq::<char>::empty(),
        ),
{
    let none = Seq::<Token>::empty();
    let empty = Seq::<char>::empty();
    let brace = seq![Token::Mark('}')];
    lemma_mark('}', empty);
    lemma_gaps(seq!['\n'], seq!['}'] + empty);
    lemma_then(seq!['\n'], none, seq!['}'], brace, empty);
    lemma_mark('}', seq!['\n'] + seq!['}'] + empty);
    lemma_then(seq!['}'], brace, seq!['\n'] + seq!['}'], none + brace, empty);
    assert(seq!['}'] + (seq!['\n'] + seq!['}']) =~= seq!['}', '\n', '}']);
    assert(brace + (none + brace) =~= seq![Token::Mark('}'), Token::Mark('}')]);
}

spec fn wide_gap() -> Seq<char> {
    seq!['\n', ' ', ' ', ' ', ' ']
}

spec fn gap() -> Seq<char> {
    seq!['\n', ' ', ' ']
}

/// The end of the range, the label of the entries, and the entries.
spec fn behind_range(list: Seq<(Seq<char>, u16)>) -> Seq<char> {
    (gap() + seq!['}']) + ((label(',', gap(), "entries"@) + seq!['{']) + (entries_text(list) + seq![
        '}',
        '\n',
        '}',
    ]))
}

proof fn lemma_behind_range(list: Seq<(Seq<char>, u16)>)
    ensures
        reads_as(
            behind_range(list),
            seq![Token::Mark('}')] + (named(',', "entries"@, Token::Mark('{')) + (entry_tokens(list)
                + seq![Token::Mark('}'), Token::Mark('}')])),
            Seq::<char>::empty(),
        ),
        behind_range(list)[0] == '\n',
{
    let none = Seq::<Token>::empty();
    let empty = Seq::<char>::empty();
    let end = seq!['}', '\n', '}'];
    let end_parts = seq![Token::Mark('}'), Token::Mark('}')];
    let entries = entries_text(list);
    let body = entries + end;
    let body_parts = entry_tokens(list) + end_parts;
    lemma_two_braces();
    assert(end + empty =~= end);
    lemma_entries_text(list, end + empty);
    lemma_then(entries, entry_tokens(list), end, end_parts, empty);
    reveal_strlit("entries");
    lemma_mark('{', body + empty);
    lemma_labelled(',', gap(), "entries"@, seq!['{'], Token::Mark('{'), body + empty);
    let head = label(',', gap(), "entries"@) + seq!['{'];
    let head_parts = named(',', "entries"@, Token::Mark('{'));
    lemma_then(head, head_parts, body, body_parts, empty);
    let tail = head + body;
    let tail_parts = head_parts + body_parts;
    let brace = seq![Token::Mark('}')];
    lemma_mark('}', tail + empty);
    lemma_gaps(gap(), seq!['}'] + (tail + empty));
    lemma_then(gap(), none, seq!['}'], brace, tail + empty);
    assert(none + brace =~= brace);
    lemma_then(gap() + seq!['}'], brace, tail, tail_parts, empty);
}

proof fn lemma_named_number(
    mark: char,
    name: Seq<char>,
    n: nat,
    tail: Seq<char>,
    parts: Seq<Token>,
)
    requires
        mark == '{' || mark == ',',
        n <= u64::MAX,
        forall|i: int|
            0 <= i < name.len() ==> (#[trigger] name[i]) as u32 >= 0x20 && name[i] != '"' && name[i]
                != '\\',
        reads_as(tail, parts, Seq::<char>::empty()),
        tail.len() > 0,
        !('0' <= tail[0] <= '9'),
    ensures
        reads_as(
            (label(mark, wide_gap(), name) + text::decimal(n)) + tail,
            named(mark, name, Token::Number(n)) + parts,
            Seq::<char>::empty(),
        ),
        ((label(mark, wide_gap(), name) + text::decimal(n)) + tail)[0] == mark,
{
    let empty = Seq::<char>::empty();
    assert(tail + empty =~= tail);
    lemma_number(n, tail + empty);
    lemma_labelled(mark, wide_gap(), name, text::decimal(n), Token::Number(n), tail + empty);
    lemma_then(
        label(mark, wide_gap(), name) + text::decimal(n),
        named(mark, name, Token::Number(n)),
        tail,
        parts,
        empty,
    );
}

/// The registry's file says where its range starts and ends, and holds every entry of the
/// listing, its name with its port, in their order and nothing else.
pub proof fn law_registry_file_reads_back(range: PortRange, list: Seq<(Seq<char>, u16)>)
    ensures
        tokens(registry::registry_json(range, list)) == Some(registry_tokens(range, list)),
{
    let none = Seq::<Token>::empty();
    let empty = Seq::<char>::empty();
    let parts3 = seq![Token::Mark('}')] + (named(',', "entries"@, Token::Mark('{')) + (entry_tokens(
        list,
    ) + seq![Token::Mark('}'), Token::Mark('}')]));
    let start = range.start as nat;
    let end = range.end as nat;
    let parts2 = named(',', "end"@, Token::Number(end)) + parts3;
    let parts1 = named('{', "start"@, Token::Number(start)) + parts2;
    let tail2 = (label(',', wide_gap(), "end"@) + text::decimal(end)) + behind_range(list);
    let tail1 = (label('{', wide_gap(), "start"@) + text::decimal(start)) + tail2;
    reveal_strlit("range");
    reveal_strlit("start");
    reveal_strlit("end");
    lemma_behind_range(list);
    lemma_named_number(',', "end"@, end, behind_range(list), parts3);
    lemma_named_number('{', "start"@, start, tail2, parts2);
    lemma_label('{', gap(), "range"@, tail1 + empty);
    let first = seq![Token::Mark('{'), Token::Text("range"@), Token::Mark(':')];
    lemma_then(label('{', gap(), "range"@), first, tail1, parts1, empty);
    let whole = label('{', gap(), "range"@) + tail1;
    lemma_registry_text(range, list);
    assert(whole + empty =~= registry::registry_json(range, list));
    assert(first + parts1 =~= registry_tokens(range, list));
    assert(tokens(whole + empty) == before(first + parts1, tokens(empty))) by {
        reveal(reads_as);
    }
    assert(first + parts1 + none =~= first + parts1);
}

/// The text of the registry's file, label by label.
proof fn lemma_registry_text(range: PortRange, list: Seq<(Seq<char>, u16)>)
    ensures
        registry::registry_json(range, list) == label('{', gap(), "range"@) + ((label(
            '{',
            wide_gap(),
            "start"@,
        ) + text::decimal(range.start as nat)) + ((label(',', wide_gap(), "end"@) + text::decimal(
            range.end as nat,
        )) + behind_range(list))),
{
    reveal_strlit("{\n  \"range\": {\n    \"start\": ");
    reveal_strlit(",\n    \"end\": ");
    reveal_strlit("\n  },\n  \"entries\": {");
    reveal_strlit("");
    reveal_strlit("\n");
    reveal_strlit("\n  ");
    reveal_strlit("}\n}");
    reveal_strlit("range");
    reveal_strlit("start");
    reveal_strlit("end");
    reveal_strlit("entries");
    let head = label('{', gap(), "range"@) + label('{', wide_gap(), "start"@);
    assert("{\n  \"range\": {\n    \"start\": "@ =~= head);
    assert(",\n    \"end\": "@ =~= label(',', wide_gap(), "end"@));
    let mid = gap() + seq!['}'] + label(',', gap(), "entries"@) + seq!['{'];
    assert("\n  },\n  \"entries\": {"@ =~= mid);
    let last = seq!['}', '\n', '}'];
    assert("}\n}"@ =~= last);
    assert("\n"@ =~= seq!['\n']);
    assert("\n  "@ =~= gap());
    assert(""@ =~= Seq::<char>::empty());
    let start = text::decimal(range.start as nat);
    let end = text::decimal(range.end as nat);
    assert(registry::registry_json(range, list) == head + start + label(',', wide_gap(), "end"@)
        + end + mid + entries_text(list) + last);
    assert(mid + entries_text(list) + last =~= behind_range(list));
    assert(head + start + label(',', wide_gap(), "end"@) + end + mid + entries_text(list) + last
        =~= label('{', gap(), "range"@) + ((label('{', wide_gap(), "start"@) + start) + ((label(
        ',',
        wide_gap(),
        "end"@,
    ) + end) + (mid + entries_text(list) + last))));
}

/// The parts of a list of ports, each behind a comma but the first.
pub open spec fn port_tokens(ports: Seq<u16>) -> Seq<Token>
    decreases ports.len(),
{
    if ports.len() == 0 {
        seq![]
    } else if ports.len() == 1 {
        seq![Token::Number(ports[0] as nat)]
    } else {
        port_tokens(ports.drop_last()) + seq![
            Token::Mark(','),
            Token::Number(ports.last() as nat),
        ]
    }
}

/// The parts of a session: each of its fields by its name, the forwarded ports as a list.
pub open spec fn session_tokens(s: SessionView) -> Seq<Token> {
    named('{', "user"@, Token::Text(s.user)) + named(',', "service"@, Token::Text(s.service))
        + named(
        ',',
        "started_at"@,
        Token::Text(state::utc_text(s.started_at.0, s.started_at.1)),
    ) + named(',', "local_port"@, Token::Number(s.local_port as nat)) + named(
        ',',
        "remote_port"@,
        Token::Number(s.remote_port as nat),
    ) + named(
        ',',
        "pid"@,
        match s.pid {
            Some(pid) => Token::Number(pid as nat),
            None => Token::Null,
        },
    ) + named(',', "forward_local_ports"@, Token::Mark('[')) + port_tokens(s.forward_local_ports)
        + seq![Token::Mark(']'), Token::Mark('}')]
}

/// The parts of sessions, each behind a comma but the first.
pub open spec fn sessions_tokens(sessions: Seq<SessionView>) -> Seq<Token>
    decreases sessions.len(),
{
    if sessions.len() == 0 {
        seq![]
    } else if sessions.len() == 1 {
        session_tokens(sessions[0])
    } else {
        sessions_tokens(sessions.drop_last()) + seq![Token::Mark(',')] + session_tokens(
            sessions.last(),
        )
    }
}

spec fn list_gap() -> Seq<char> {
    seq!['\n', ' ', ' ', ' ', ' ', ' ', ' ', ' ', ' ']
}

spec fn field_gap() -> Seq<char> {
    seq!['\n', ' ', ' ', ' ', ' ', ' ', ' ']
}

proof fn lemma_joined_ports(ports: Seq<u16>, rest: Seq<char>)
    requires
        ports.len() > 0,
        rest.len() > 0 ==> !('0' <= rest[0] <= '9'),
    ensures
        reads_as(
            text::joined(ports.map_values(|p: u16| text::decimal(p as nat)), ",\n        "@),
            port_tokens(ports),
            rest,
        ),
    decreases ports.len(),
{
    let f = |p: u16| text::decimal(p as nat);
    let lines = ports.map_values(f);
    let last = text::decimal(ports.last() as nat);
    let number = seq![Token::Number(ports.last() as nat)];
    lemma_number(ports.last() as nat, rest);
    if ports.len() == 1 {
        assert(text::joined(lines, ",\n        "@) == last);
        assert(port_tokens(ports) =~= number);
    } else {
        let front = ports.drop_last();
        let none = Seq::<Token>::empty();
        let comma = seq![Token::Mark(',')];
        reveal_strlit(",\n        ");
        lemma_gaps(list_gap(), last + rest);
        lemma_then(list_gap(), none, last, number, rest);
        lemma_mark(',', list_gap() + last + rest);
        lemma_then(seq![','], comma, list_gap() + last, none + number, rest);
        let tail = seq![','] + (list_gap() + last);
        assert(tail =~= ",\n        "@ + last);
        lemma_joined_ports(front, tail + rest);
        let head = text::joined(front.map_values(f), ",\n        "@);
        lemma_then(head, port_tokens(front), tail, comma + (none + number), rest);
        assert(lines.drop_last() =~= front.map_values(f));
        assert(text::joined(lines, ",\n        "@) =~= head + tail);
        assert(port_tokens(front) + (comma + (none + number)) =~= port_tokens(ports));
    }
}

proof fn lemma_ports(ports: Seq<u16>, rest: Seq<char>)
    ensures
        reads_as(
            saved_state::ports_json(ports),
            seq![Token::Mark('[')] + port_tokens(ports) + seq![Token::Mark(']')],
            rest,
        ),
{
    let open = seq![Token::Mark('[')];
    let close = seq![Token::Mark(']')];
    let none = Seq::<Token>::empty();
    lemma_mark(']', rest);
    if ports.len() == 0 {
        reveal_strlit("[]");
        lemma_mark('[', seq![']'] + rest);
        lemma_then(seq!['['], open, seq![']'], close, rest);
        assert("[]"@ =~= seq!['['] + seq![']']);
        assert(open + port_tokens(ports) + close =~= open + close);
    } else {
        reveal_strlit("[\n        ");
        reveal_strlit("\n      ]");
        let lines = text::joined(
            ports.map_values(|p: u16| text::decimal(p as nat)),
            ",\n        "@,
        );
        lemma_gaps(field_gap(), seq![']'] + rest);
        lemma_then(field_gap(), none, seq![']'], close, rest);
        let end = field_gap() + seq![']'];
        lemma_joined_ports(ports, end + rest);
        lemma_then(lines, port_tokens(ports), end, none + close, rest);
        let body = lines + end;
        let parts = port_tokens(ports) + (none + close);
        lemma_gaps(list_gap(), body + rest);
        lemma_then(list_gap(), none, body, parts, rest);
        lemma_mark('[', list_gap() + body + rest);
        lemma_then(seq!['['], open, list_gap() + body, none + parts, rest);
        assert("[\n        "@ =~= seq!['['] + list_gap());
        assert("\n      ]"@ =~= end);
        assert(saved_state::ports_json(ports) =~= seq!['['] + (list_gap() + body));
        assert(open + (none + parts) =~= open + port_tokens(ports) + close);
    }
}

proof fn lemma_named(
    mark: char,
    name: Seq<char>,
    value: Seq<char>,
    token: Token,
    tail: Seq<char>,
    parts: Seq<Token>,
    rest: Seq<char>,
)
    requires
        mark == '{' || mark == ',',
        forall|i: int|
            0 <= i < name.len() ==> (#[trigger] name[i]) as u32 >= 0x20 && name[i] != '"' && name[i]
                != '\\',
        reads_as(value, seq![token], tail + rest),
        reads_as(tail, parts, rest),
    ensures
        reads_as(
            (label(mark, field_gap(), name) + value) + tail,
            named(mark, name, token) + parts,
            rest,
        ),
        ((label(mark, field_gap(), name) + value) + tail).len() > 0,
        ((label(mark, field_gap(), name) + value) + tail)[0] == mark,
{
    lemma_labelled(mark, field_gap(), name, value, token, tail + rest);
    lemma_then(
        label(mark, field_gap(), name) + value,
        named(mark, name, token),
        tail,
        parts,
        rest,
    );
}

/// The field of the process, and the fields behind it.
spec fn from_pid(s: SessionView) -> Seq<char> {
    (label(',', field_gap(), "pid"@) + saved_state::pid_json(s.pid)) + (label(
        ',',
        field_gap(),
        "forward_local_ports"@,
    ) + (saved_state::ports_json(s.forward_local_ports) + (seq!['\n', ' ', ' ', ' ', ' '] + seq!['}'])))
}

spec fn from_pid_tokens(s: SessionView) -> Seq<Token> {
    named(
        ',',
        "pid"@,
        match s.pid {
            Some(pid) => Token::Number(pid as nat),
            None => Token::Null,
        },
    ) + (named(',', "forward_local_ports"@, Token::Mark('[')) + port_tokens(s.forward_local_ports)
        + seq![Token::Mark(']'), Token::Mark('}')])
}

proof fn lemma_from_pid(s: SessionView, rest: Seq<char>)
    ensures
        reads_as(from_pid(s), from_pid_tokens(s), rest),
        from_pid(s).len() > 0,
        from_pid(s)[0] == ',',
{
    reveal_strlit("pid");
    reveal_strlit("forward_local_ports");
    let none = Seq::<Token>::empty();
    let close = seq![Token::Mark('}')];
    lemma_mark('}', rest);
    lemma_gaps(wide_gap(), seq!['}'] + rest);
    lemma_then(wide_gap(), none, seq!['}'], close, rest);
    let end = wide_gap() + seq!['}'];
    let list = saved_state::ports_json(s.forward_local_ports);
    let list_parts = seq![Token::Mark('[')] + port_tokens(s.forward_local_ports) + seq![
        Token::Mark(']'),
    ];
    lemma_ports(s.forward_local_ports, end + rest);
    lemma_then(list, list_parts, end, none + close, rest);
    let body = list + end;
    let body_parts = list_parts + (none + close);
    let name = "forward_local_ports"@;
    let head = label(',', field_gap(), name);
    let head_parts = seq![Token::Mark(','), Token::Text(name), Token::Mark(':')];
    lemma_label(',', field_gap(), name, body + rest);
    lemma_then(head, head_parts, body, body_parts, rest);
    let tail = head + body;
    let parts = named(',', name, Token::Mark('[')) + port_tokens(s.forward_local_ports) + seq![
        Token::Mark(']'),
        Token::Mark('}'),
    ];
    assert(head_parts + body_parts =~= parts);
    let token = match s.pid {
        Some(pid) => Token::Number(pid as nat),
        None => Token::Null,
    };
    assert((tail + rest)[0] == ',');
    match s.pid {
        Some(pid) => {
            lemma_number(pid as nat, tail + rest);
        },
        None => {
            lemma_null(tail + rest);
        },
    }
    lemma_named(',', "pid"@, saved_state::pid_json(s.pid), token, tail, parts, rest);
}

/// The fields of a session from the first to the one before the process.
proof fn lemma_session(s: SessionView, rest: Seq<char>)
    ensures
        reads_as(saved_state::session_json(s), session_tokens(s), rest),
{
    reveal_strlit("user");
    reveal_strlit("service");
    reveal_strlit("started_at");
    reveal_strlit("local_port");
    reveal_strlit("remote_port");
    let none = Seq::<Token>::empty();
    let when = state::utc_text(s.started_at.0, s.started_at.1);
    let tail6 = from_pid(s);
    let parts6 = from_pid_tokens(s);
    lemma_from_pid(s, rest);
    assert((tail6 + rest)[0] == ',');
    let remote = text::decimal(s.remote_port as nat);
    lemma_number(s.remote_port as nat, tail6 + rest);
    lemma_named(
        ',',
        "remote_port"@,
        remote,
        Token::Number(s.remote_port as nat),
        tail6,
        parts6,
        rest,
    );
    let tail5 = (label(',', field_gap(), "remote_port"@) + remote) + tail6;
    let parts5 = named(',', "remote_port"@, Token::Number(s.remote_port as nat)) + parts6;
    assert((tail5 + rest)[0] == ',');
    let local = text::decimal(s.local_port as nat);
    lemma_number(s.local_port as nat, tail5 + rest);
    lemma_named(
        ',',
        "local_port"@,
        local,
        Token::Number(s.local_port as nat),
        tail5,
        parts5,
        rest,
    );
    let tail4 = (label(',', field_gap(), "local_port"@) + local) + tail5;
    let parts4 = named(',', "local_port"@, Token::Number(s.local_port as nat)) + parts5;
    lemma_text(when, tail4 + rest);
    lemma_named(
        ',',
        "started_at"@,
        common::json_text(when),
        Token::Text(when),
        tail4,
        parts4,
        rest,
    );
    let tail3 = (label(',', field_gap(), "started_at"@) + common::json_text(when)) + tail4;
    let parts3 = named(',', "started_at"@, Token::Text(when)) + parts4;
    lemma_text(s.service, tail3 + rest);
    lemma_named(
        ',',
        "service"@,
        common::json_text(s.service),
        Token::Text(s.service),
        tail3,
        parts3,
        rest,
    );
    let tail2 = (label(',', field_gap(), "service"@) + common::json_text(s.service)) + tail3;
    let parts2 = named(',', "service"@, Token::Text(s.service)) + parts3;
    lemma_text(s.user, tail2 + rest);
    lemma_named(
        '{',
        "user"@,
        common::json_text(s.user),
        Token::Text(s.user),
        tail2,
        parts2,
        rest,
    );
    let tail1 = (label('{', field_gap(), "user"@) + common::json_text(s.user)) + tail2;
    let parts1 = named('{', "user"@, Token::Text(s.user)) + parts2;
    let margin = seq![' ', ' ', ' ', ' '];
    lemma_gaps(margin, tail1 + rest);
    lemma_then(margin, none, tail1, parts1, rest);
    lemma_session_text(s);
    assert(none + parts1 =~= session_tokens(s));
}

/// The text of a session, label by label.
#[verifier::rlimit(40)]
#[verifier::spinoff_prover]
proof fn lemma_session_text(s: SessionView)
    ensures
        saved_state::session_json(s) == seq![' ', ' ', ' ', ' '] + ((label(
            '{',
            field_gap(),
            "user"@,
        ) + common::json_text(s.user)) + ((label(',', field_gap(), "service"@) + common::json_text(
            s.service,
        )) + ((label(',', field_gap(), "started_at"@) + common::json_text(
            state::utc_text(s.started_at.0, s.started_at.1),
        )) + ((label(',', field_gap(), "local_port"@) + text::decimal(s.local_port as nat)) + ((
        label(',', field_gap(), "remote_port"@) + text::decimal(s.remote_port as nat)) + from_pid(
            s,
        )))))),
{
    let margin = seq![' ', ' ', ' ', ' '];
    let user = common::json_text(s.user);
    let service = common::json_text(s.service);
    let when = common::json_text(state::utc_text(s.started_at.0, s.started_at.1));
    let local = text::decimal(s.local_port as nat);
    let remote = text::decimal(s.remote_port as nat);
    let pid = saved_state::pid_json(s.pid);
    let ports = saved_state::ports_json(s.forward_local_ports);
    let l1 = label('{', field_gap(), "user"@);
    let l2 = label(',', field_gap(), "service"@);
    let l3 = label(',', field_gap(), "started_at"@);
    let l4 = label(',', field_gap(), "local_port"@);
    let l5 = label(',', field_gap(), "remote_port"@);
    let l6 = label(',', field_gap(), "pid"@);
    let l7 = label(',', field_gap(), "forward_local_ports"@);
    let end = wide_gap() + seq!['}'];
    lemma_session_labels();
    assert(saved_state::session_json(s) == (margin + l1) + user + l2 + service + l3 + when + l4
        + local + l5 + remote + l6 + pid + l7 + ports + end);
    let x = margin + ((l1 + user) + ((l2 + service) + ((l3 + when) + ((l4 + local) + ((l5 + remote)
        + ((l6 + pid) + (l7 + (ports + end))))))));
    assert((margin + l1) + user + l2 + service + l3 + when + l4 + local + l5 + remote + l6 + pid
        + l7 + ports + end =~= x);
    assert(from_pid(s) == (l6 + pid) + (l7 + (ports + end)));
}

proof fn lemma_session_labels()
    ensures
        "    {\n      \"user\": "@ == seq![' ', ' ', ' ', ' '] + label('{', field_gap(), "user"@),
        ",\n      \"service\": "@ == label(',', field_gap(), "service"@),
        ",\n      \"started_at\": "@ == label(',', field_gap(), "started_at"@),
        ",\n      \"local_port\": "@ == label(',', field_gap(), "local_port"@),
        ",\n      \"remote_port\": "@ == label(',', field_gap(), "remote_port"@),
        ",\n      \"pid\": "@ == label(',', field_gap(), "pid"@),
        ",\n      \"forward_local_ports\": "@ == label(
            ',',
            field_gap(),
            "forward_local_ports"@,
        ),
        "\n    }"@ == wide_gap() + seq!['}'],
{
    reveal_strlit("user");
    reveal_strlit("service");
    reveal_strlit("started_at");
    reveal_strlit("local_port");
    reveal_strlit("remote_port");
    reveal_strlit("pid");
    reveal_strlit("forward_local_ports");
    reveal_strlit("    {\n      \"user\": ");
    reveal_strlit(",\n      \"service\": ");
    reveal_strlit(",\n      \"started_at\": ");
    reveal_strlit(",\n      \"local_port\": ");
    reveal_strlit(",\n      \"remote_port\": ");
    reveal_strlit(",\n      \"pid\": ");
    reveal_strlit(",\n      \"forward_local_ports\": ");
    reveal_strlit("\n    }");
    assert("    {\n      \"user\": "@ =~= seq![' ', ' ', ' ', ' '] + label(
        '{',
        field_gap(),
        "user"@,
    ));
    assert(",\n      \"service\": "@ =~= label(',', field_gap(), "service"@));
    assert(",\n      \"started_at\": "@ =~= label(',', field_gap(), "started_at"@));
    assert(",\n      \"local_port\": "@ =~= label(',', field_gap(), "local_port"@));
    assert(",\n      \"remote_port\": "@ =~= label(',', field_gap(), "remote_port"@));
    assert(",\n      \"pid\": "@ =~= label(',', field_gap(), "pid"@));
    assert(",\n      \"forward_local_ports\": "@ =~= label(
        ',',
        field_gap(),
        "forward_local_ports"@,
    ));
    assert("\n    }"@ =~= wide_gap() + seq!['}']);
}

proof fn lemma_sessions(sessions: Seq<SessionView>, rest: Seq<char>)
    requires
        sessions.len() > 0,
    ensures
        reads_as(
            text::joined(
                sessions.map_values(|s: SessionView| saved_state::session_json(s)),
                ",\n"@,
            ),
            sessions_tokens(sessions),
            rest,
        ),
    decreases sessions.len(),
{
    let f = |s: SessionView| saved_state::session_json(s);
    let lines = sessions.map_values(f);
    let last = saved_state::session_json(sessions.last());
    let parts = session_tokens(sessions.last());
    lemma_session(sessions.last(), rest);
    if sessions.len() == 1 {
        assert(text::joined(lines, ",\n"@) == last);
    } else {
        let front = sessions.drop_last();
        let none = Seq::<Token>::empty();
        let comma = seq![Token::Mark(',')];
        reveal_strlit(",\n");
        lemma_gaps(seq!['\n'], last + rest);
        lemma_then(seq!['\n'], none, last, parts, rest);
        lemma_mark(',', seq!['\n'] + last + rest);
        lemma_then(seq![','], comma, seq!['\n'] + last, none + parts, rest);
        let tail = seq![','] + (seq!['\n'] + last);
        assert(tail =~= ",\n"@ + last);
        lemma_sessions(front, tail + rest);
        let head = text::joined(front.map_values(f), ",\n"@);
        lemma_then(head, sessions_tokens(front), tail, comma + (none + parts), rest);
        assert(lines.drop_last() =~= front.map_values(f));
        assert(text::joined(lines, ",\n"@) =~= head + tail);
        assert(sessions_tokens(front) + (comma + (none + parts)) =~= sessions_tokens(sessions));
    }
}

/// The state file holds every session with all its fields, each under its own name, in
/// their order and nothing else.
pub proof fn law_state_file_reads_back(sessions: Seq<SessionView>)
    ensures
        tokens(saved_state::state_json(sessions)) == Some(
            named('{', "sessions"@, Token::Mark('[')) + sessions_tokens(sessions) + seq![
                Token::Mark(']'),
                Token::Mark('}'),
            ],
        ),
{
    reveal_strlit("sessions");
    reveal_strlit("{\n  \"sessions\": []\n}");
    reveal_strlit("{\n  \"sessions\": [\n");
    reveal_strlit("\n  ]\n}");
    let none = Seq::<Token>::empty();
    let empty = Seq::<char>::empty();
    let close = seq![Token::Mark('}')];
    let shut = seq![Token::Mark(']')];
    lemma_mark('}', empty);
    lemma_gaps(seq!['\n'], seq!['}'] + empty);
    lemma_then(seq!['\n'], none, seq!['}'], close, empty);
    let last = seq!['\n'] + seq!['}'];
    lemma_mark(']', last + empty);
    lemma_then(seq![']'], shut, last, none + close, empty);
    let end = seq![']'] + last;
    let end_parts = shut + (none + close);
    let body: Seq<char> = if sessions.len() == 0 {
        end
    } else {
        seq!['\n'] + (text::joined(
            sessions.map_values(|s: SessionView| saved_state::session_json(s)),
            ",\n"@,
        ) + (gap() + end))
    };
    let parts = sessions_tokens(sessions) + end_parts;
    if sessions.len() == 0 {
        assert(parts =~= end_parts);
    } else {
        let lines = text::joined(
            sessions.map_values(|s: SessionView| saved_state::session_json(s)),
            ",\n"@,
        );
        lemma_gaps(gap(), end + empty);
        lemma_then(gap(), none, end, end_parts, empty);
        lemma_sessions(sessions, gap() + end + empty);
        lemma_then(lines, sessions_tokens(sessions), gap() + end, none + end_parts, empty);
        lemma_gaps(seq!['\n'], lines + (gap() + end) + empty);
        lemma_then(
            seq!['\n'],
            none,
            lines + (gap() + end),
            sessions_tokens(sessions) + (none + end_parts),
            empty,
        );
        assert(none + (sessions_tokens(sessions) + (none + end_parts)) =~= parts);
    }
    lemma_mark('[', body + empty);
    lemma_labelled('{', gap(), "sessions"@, seq!['['], Token::Mark('['), body + empty);
    let head = label('{', gap(), "sessions"@) + seq!['['];
    let head_parts = named('{', "sessions"@, Token::Mark('['));
    lemma_then(head, head_parts, body, parts, empty);
    let whole = head + body;
    assert(whole + empty =~= saved_state::state_json(sessions)) by {
        if sessions.len() == 0 {
            assert("{\n  \"sessions\": []\n}"@ =~= head + end);
        } else {
            assert("{\n  \"sessions\": [\n"@ =~= head + seq!['\n']);
            assert("\n  ]\n}"@ =~= gap() + end);
        }
    }
    assert(tokens(whole + empty) == before(head_parts + parts, tokens(empty))) by {
        reveal(reads_as);
    }
    assert(head_parts + parts + none =~= head_parts + sessions_tokens(sessions) + seq![
        Token::Mark(']'),
        Token::Mark('}'),
    ]);
}

} // verus!
