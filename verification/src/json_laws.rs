//! What a reader of JSON finds in what the library writes.

use vstd::prelude::*;
use crate::common;
use crate::text;

verus! {

/// The character that a letter behind a backslash stands for.
pub open spec fn unescaped(c: char) -> Option<char> {
    if c == '"' || c == '\\' || c == '/' {
        Some(c)
    } else if c == 'b' {
        Some('\u{8}')
    } else if c == 'f' {
        Some('\u{c}')
    } else if c == 'n' {
        Some('\n')
    } else if c == 'r' {
        Some('\r')
    } else if c == 't' {
        Some('\t')
    } else {
        None
    }
}

/// The value of a hexadecimal digit.
pub open spec fn hex_value(c: char) -> Option<int> {
    if '0' <= c <= '9' {
        Some(c as u32 - '0' as u32)
    } else if 'a' <= c <= 'f' {
        Some(c as u32 - 'a' as u32 + 10)
    } else if 'A' <= c <= 'F' {
        Some(c as u32 - 'A' as u32 + 10)
    } else {
        None
    }
}

/// The character with this four-digit code.
pub open spec fn coded(s: Seq<char>) -> Option<char> {
    match (hex_value(s[0]), hex_value(s[1]), hex_value(s[2]), hex_value(s[3])) {
        (Some(a), Some(b), Some(c), Some(d)) => Some(
            ((((a * 16 + b) * 16 + c) * 16 + d) as u32) as char,
        ),
        _ => None,
    }
}

/// A string, from behind its opening quote: what it stands for, and what comes behind
/// its closing quote.
pub open spec fn read_string(s: Seq<char>) -> Option<(Seq<char>, Seq<char>)>
    decreases s.len(),
{
    if s.len() == 0 {
        None
    } else if s[0] == '"' {
        Some((seq![], s.skip(1)))
    } else if s[0] == '\\' {
        if s.len() < 2 {
            None
        } else if s[1] == 'u' {
            if s.len() < 6 {
                None
            } else {
                match (coded(s.subrange(2, 6)), read_string(s.skip(6))) {
                    (Some(c), Some((more, rest))) => Some((seq![c] + more, rest)),
                    _ => None,
                }
            }
        } else {
            match (unescaped(s[1]), read_string(s.skip(2))) {
                (Some(c), Some((more, rest))) => Some((seq![c] + more, rest)),
                _ => None,
            }
        }
    } else if (s[0] as u32) < 0x20 {
        None
    } else {
        match read_string(s.skip(1)) {
            Some((more, rest)) => Some((seq![s[0]] + more, rest)),
            None => None,
        }
    }
}

/// How many digits a text begins with.
pub open spec fn digits(s: Seq<char>) -> nat
    decreases s.len(),
{
    if s.len() > 0 && '0' <= s[0] <= '9' {
        1 + digits(s.skip(1))
    } else {
        0
    }
}

/// A string, a number or null.
pub enum Scalar {
    Text(Seq<char>),
    Number(nat),
    Null,
}

/// A scalar, and what comes behind it.
pub open spec fn read_scalar(s: Seq<char>) -> Option<(Scalar, Seq<char>)> {
    if s.len() > 0 && s[0] == '"' {
        match read_string(s.skip(1)) {
            Some((t, rest)) => Some((Scalar::Text(t), rest)),
            None => None,
        }
    } else if s.len() >= 4 && s.take(4) == seq!['n', 'u', 'l', 'l'] {
        Some((Scalar::Null, s.skip(4)))
    } else {
        let n = digits(s) as int;
        match text::number(s.take(n), u64::MAX as nat) {
            Some(v) => Some((Scalar::Number(v), s.skip(n))),
            None => None,
        }
    }
}

/// A field of an object: its name, a colon and a scalar.
pub open spec fn read_field(s: Seq<char>) -> Option<((Seq<char>, Scalar), Seq<char>)> {
    if s.len() > 0 && s[0] == '"' {
        match read_string(s.skip(1)) {
            Some((name, rest)) => if rest.len() > 0 && rest[0] == ':' {
                match read_scalar(rest.skip(1)) {
                    Some((value, rest)) => Some(((name, value), rest)),
                    None => None,
                }
            } else {
                None
            },
            None => None,
        }
    } else {
        None
    }
}

/// The fields of an object from its first to its closing brace.
pub open spec fn read_fields(s: Seq<char>) -> Option<(Seq<(Seq<char>, Scalar)>, Seq<char>)>
    decreases s.len(),
{
    match read_field(s) {
        Some((field, rest)) => if rest.len() > 0 && rest[0] == '}' {
            Some((seq![field], rest.skip(1)))
        } else if 0 < rest.len() <= s.len() && rest[0] == ',' {
            match read_fields(rest.skip(1)) {
                Some((more, rest)) => Some((seq![field] + more, rest)),
                None => None,
            }
        } else {
            None
        },
        None => None,
    }
}

/// An object of scalars: its fields in their order.
pub open spec fn read_object(s: Seq<char>) -> Option<(Seq<(Seq<char>, Scalar)>, Seq<char>)> {
    if s.len() > 0 && s[0] == '{' {
        read_fields(s.skip(1))
    } else {
        None
    }
}

proof fn lemma_chars_front(s: Seq<char>)
    requires
        s.len() > 0,
    ensures
        common::json_chars(s) == common::json_char(s[0]) + common::json_chars(s.skip(1)),
    decreases s.len(),
{
    if s.len() == 1 {
        assert(s.drop_last() =~= seq![]);
        assert(s.skip(1) =~= seq![]);
        assert(common::json_chars(s) =~= common::json_char(s[0]) + common::json_chars(s.skip(1)));
    } else {
        lemma_chars_front(s.drop_last());
        assert(s.drop_last().skip(1) =~= s.skip(1).drop_last());
        assert(common::json_chars(s) =~= common::json_char(s[0]) + common::json_chars(s.skip(1)));
    }
}

/// A string that was written reads back as it was.
#[verifier::rlimit(40)]
pub proof fn law_string_reads_back(s: Seq<char>, rest: Seq<char>)
    ensures
        read_string((common::json_text(s) + rest).skip(1)) == Some((s, rest)),
        (common::json_text(s) + rest)[0] == '"',
    decreases s.len(),
{
    let whole = common::json_chars(s) + seq!['"'] + rest;
    assert((common::json_text(s) + rest).skip(1) =~= whole);
    if s.len() == 0 {
        assert(whole.skip(1) =~= rest);
        assert(s =~= seq![]);
    } else {
        let c = s[0];
        let more = s.skip(1);
        let tail = common::json_chars(more) + seq!['"'] + rest;
        lemma_chars_front(s);
        law_string_reads_back(more, rest);
        assert((common::json_text(more) + rest).skip(1) =~= tail);
        assert(s =~= seq![c] + more);
        assert(whole =~= common::json_char(c) + tail);
        lemma_char(c, tail);
    }
}

/// A character that was written is read as it was, and then what follows it.
proof fn lemma_char(c: char, tail: Seq<char>)
    requires
        read_string(tail) is Some,
    ensures
        ({
            let (more, rest) = read_string(tail)->0;
            read_string(common::json_char(c) + tail) == Some((seq![c] + more, rest))
        }),
{
    let v = c as u32;
    let head = common::json_char(c);
    let whole = head + tail;
    if c == '"' || c == '\\' || v == 0x08 || v == 0x09 || v == 0x0a || v == 0x0c || v == 0x0d {
        assert(whole.skip(2) =~= tail);
        assert(whole[0] == '\\' && whole[1] == head[1]);
        assert(unescaped(head[1]) == Some(c));
    } else if v < 0x20 {
        assert(whole.skip(6) =~= tail);
        let code = whole.subrange(2, 6);
        let a = v as int / 16;
        let b = v as int % 16;
        assert(code[0] == '0' && code[1] == '0');
        assert(code[2] == common::hex_digit(a));
        assert(code[3] == common::hex_digit(b));
        lemma_hex(a);
        lemma_hex(b);
        assert(hex_value('0') == Some(0int));
        assert(a * 16 + b == v);
        assert(coded(code) == Some(c));
        assert(whole[1] == 'u');
    } else {
        assert(whole.skip(1) =~= tail);
        assert(whole[0] == c);
    }
}

proof fn lemma_hex(d: int)
    requires
        0 <= d < 16,
    ensures
        hex_value(common::hex_digit(d)) == Some(d),
{
}

proof fn lemma_digits(n: nat, rest: Seq<char>)
    requires
        rest.len() > 0 ==> !('0' <= rest[0] <= '9'),
    ensures
        digits(text::decimal(n) + rest) == text::decimal(n).len(),
{
    text::lemma_decimal(n);
    lemma_digits_of(text::decimal(n), rest);
}

proof fn lemma_digits_of(d: Seq<char>, rest: Seq<char>)
    requires
        forall|i: int| 0 <= i < d.len() ==> text::is_digit(#[trigger] d[i]),
        rest.len() > 0 ==> !('0' <= rest[0] <= '9'),
    ensures
        digits(d + rest) == d.len(),
    decreases d.len(),
{
    if d.len() == 0 {
        assert(d + rest =~= rest);
    } else {
        assert(text::is_digit(d[0]));
        assert((d + rest)[0] == d[0]);
        assert((d + rest).skip(1) =~= d.skip(1) + rest);
        lemma_digits_of(d.skip(1), rest);
    }
}

/// A number that was written reads back as it was.
pub proof fn law_number_reads_back(n: u64, rest: Seq<char>)
    requires
        rest.len() > 0 ==> !('0' <= rest[0] <= '9'),
    ensures
        read_scalar(text::decimal(n as nat) + rest) == Some((Scalar::Number(n as nat), rest)),
{
    let d = text::decimal(n as nat);
    text::lemma_decimal(n as nat);
    lemma_digits(n as nat, rest);
    assert((d + rest)[0] == d[0]);
    assert((d + rest).take(d.len() as int) =~= d);
    assert((d + rest).skip(d.len() as int) =~= rest);
    assert((d + rest).len() >= 4 ==> (d + rest).take(4)[0] == d[0]);
    text::law_number_of_decimal(n as nat, u64::MAX as nat);
}

/// A field whose name is spelled in plain letters, and a scalar, read back.
pub(crate) proof fn lemma_field(name: Seq<char>, value: Seq<char>, scalar: Scalar, rest: Seq<char>)
    requires
        read_scalar(value + rest) == Some((scalar, rest)),
        forall|i: int|
            0 <= i < name.len() ==> (#[trigger] name[i]) as u32 >= 0x20 && name[i] != '"' && name[i]
                != '\\',
    ensures
        read_field(seq!['"'] + name + seq!['"', ':'] + value + rest) == Some(
            ((name, scalar), rest),
        ),
{
    let whole = seq!['"'] + name + seq!['"', ':'] + value + rest;
    let tail = seq![':'] + value + rest;
    lemma_plain(name, tail);
    assert(whole.skip(1) =~= name + seq!['"'] + tail);
    assert(tail.skip(1) =~= value + rest);
}

pub(crate) proof fn lemma_plain(name: Seq<char>, rest: Seq<char>)
    requires
        forall|i: int|
            0 <= i < name.len() ==> (#[trigger] name[i]) as u32 >= 0x20 && name[i] != '"' && name[i]
                != '\\',
    ensures
        read_string(name + seq!['"'] + rest) == Some((name, rest)),
    decreases name.len(),
{
    let whole = name + seq!['"'] + rest;
    if name.len() == 0 {
        assert(whole.skip(1) =~= rest);
        assert(name =~= seq![]);
    } else {
        assert(whole[0] == name[0]);
        assert(whole.skip(1) =~= name.skip(1) + seq!['"'] + rest);
        lemma_plain(name.skip(1), rest);
        assert(name =~= seq![name[0]] + name.skip(1));
    }
}

/// A field before others, read with them.
pub(crate) proof fn lemma_field_before(
    name: Seq<char>,
    value: Seq<char>,
    scalar: Scalar,
    more: Seq<char>,
    fields: Seq<(Seq<char>, Scalar)>,
    rest: Seq<char>,
)
    requires
        read_scalar(value + (seq![','] + more)) == Some((scalar, seq![','] + more)),
        forall|i: int|
            0 <= i < name.len() ==> (#[trigger] name[i]) as u32 >= 0x20 && name[i] != '"' && name[i]
                != '\\',
        read_fields(more) == Some((fields, rest)),
    ensures
        read_fields(seq!['"'] + name + seq!['"', ':'] + value + (seq![','] + more)) == Some(
            (seq![(name, scalar)] + fields, rest),
        ),
{
    lemma_field(name, value, scalar, seq![','] + more);
    assert((seq![','] + more).skip(1) =~= more);
}

/// The last field of an object.
pub(crate) proof fn lemma_last_field(
    name: Seq<char>,
    value: Seq<char>,
    scalar: Scalar,
    rest: Seq<char>,
)
    requires
        read_scalar(value + (seq!['}'] + rest)) == Some((scalar, seq!['}'] + rest)),
        forall|i: int|
            0 <= i < name.len() ==> (#[trigger] name[i]) as u32 >= 0x20 && name[i] != '"' && name[i]
                != '\\',
    ensures
        read_fields(seq!['"'] + name + seq!['"', ':'] + value + (seq!['}'] + rest)) == Some(
            (seq![(name, scalar)], rest),
        ),
{
    lemma_field(name, value, scalar, seq!['}'] + rest);
    assert((seq!['}'] + rest).skip(1) =~= rest);
}

pub(crate) proof fn lemma_text(s: Seq<char>, rest: Seq<char>)
    ensures
        read_scalar(common::json_text(s) + rest) == Some((Scalar::Text(s), rest)),
{
    law_string_reads_back(s, rest);
}

/// A request names its user and its service, whatever characters they hold.
pub proof fn law_pair_reads_back(user: Seq<char>, service: Seq<char>)
    ensures
        read_object(common::pair_json(user, service)) == Some(
            (
                seq![
                    (seq!['u', 's', 'e', 'r'], Scalar::Text(user)),
                    (seq!['s', 'e', 'r', 'v', 'i', 'c', 'e'], Scalar::Text(service)),
                ],
                Seq::<char>::empty(),
            ),
        ),
{
    reveal_strlit("{\"user\":");
    reveal_strlit(",\"service\":");
    reveal_strlit("}");
    let whole = common::pair_json(user, service);
    let name1 = seq!['u', 's', 'e', 'r'];
    let name2 = seq!['s', 'e', 'r', 'v', 'i', 'c', 'e'];
    let value1 = common::json_text(user);
    let value2 = common::json_text(service);
    let end = seq!['}'];
    let second = seq!['"'] + name2 + seq!['"', ':'] + value2 + end;
    let rest1 = seq![','] + second;
    let first = seq!['"'] + name1 + seq!['"', ':'] + value1 + rest1;
    assert(whole =~= seq!['{'] + first);
    assert(whole.skip(1) =~= first);
    lemma_text(user, rest1);
    lemma_text(service, end);
    lemma_field(name1, value1, Scalar::Text(user), rest1);
    lemma_field(name2, value2, Scalar::Text(service), end);
    assert(rest1.skip(1) =~= second);
    assert(end.skip(1) =~= Seq::<char>::empty());
    assert(read_fields(second) == Some(
        (seq![(name2, Scalar::Text(service))], Seq::<char>::empty()),
    ));
    assert(seq![(name1, Scalar::Text(user))] + seq![(name2, Scalar::Text(service))] =~= seq![
        (name1, Scalar::Text(user)),
        (name2, Scalar::Text(service)),
    ]);
}

/// An answer to a registration holds the port.
pub proof fn law_port_reads_back(port: u16)
    ensures
        read_object(common::port_json(port)) == Some(
            (
                seq![
                    (
                        seq!['r', 'e', 'm', 'o', 't', 'e', '_', 'p', 'o', 'r', 't'],
                        Scalar::Number(port as nat),
                    ),
                ],
                Seq::<char>::empty(),
            ),
        ),
{
    reveal_strlit("{\"remote_port\":");
    reveal_strlit("}");
    let name = seq!['r', 'e', 'm', 'o', 't', 'e', '_', 'p', 'o', 'r', 't'];
    let value = text::decimal(port as nat);
    let end = seq!['}'];
    let first = seq!['"'] + name + seq!['"', ':'] + value + end;
    assert(common::port_json(port) =~= seq!['{'] + first);
    assert(common::port_json(port).skip(1) =~= first);
    law_number_reads_back(port as u64, end);
    lemma_field(name, value, Scalar::Number(port as nat), end);
    assert(end.skip(1) =~= Seq::<char>::empty());
}

/// An answer that says what is wrong holds the words for it.
pub proof fn law_error_reads_back(message: Seq<char>)
    ensures
        read_object(common::error_json(message)) == Some(
            (
                seq![(seq!['e', 'r', 'r', 'o', 'r'], Scalar::Text(message))],
                Seq::<char>::empty(),
            ),
        ),
{
    reveal_strlit("{\"error\":");
    reveal_strlit("}");
    let name = seq!['e', 'r', 'r', 'o', 'r'];
    let value = common::json_text(message);
    let end = seq!['}'];
    let first = seq!['"'] + name + seq!['"', ':'] + value + end;
    assert(common::error_json(message) =~= seq!['{'] + first);
    assert(common::error_json(message).skip(1) =~= first);
    lemma_text(message, end);
    lemma_field(name, value, Scalar::Text(message), end);
    assert(end.skip(1) =~= Seq::<char>::empty());
}

} // verus!
