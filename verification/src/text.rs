//! Plain text: the operations on characters that the rest of the crate is
//! built from, each with the sequence of characters it stands for.

use vstd::prelude::*;
use vstd::slice::slice_subrange;
use crate::order;

verus! {

/// `String::push`: one character goes to the end.
pub assume_specification[ String::push ](s: &mut String, c: char)
    ensures
        final(s)@ == old(s)@.push(c),
;

/// The `White_Space` property of Unicode.
pub open spec fn is_white(c: char) -> bool {
    let v = c as u32;
    ||| 0x09 <= v <= 0x0d
    ||| v == 0x20
    ||| v == 0x85
    ||| v == 0xa0
    ||| v == 0x1680
    ||| 0x2000 <= v <= 0x200a
    ||| v == 0x2028
    ||| v == 0x2029
    ||| v == 0x202f
    ||| v == 0x205f
    ||| v == 0x3000
}

/// Whether `c` is white space.
pub fn is_whitespace(c: char) -> (r: bool)
    ensures
        r == is_white(c),
{
    let v: u32 = c as u32;
    (0x09 <= v && v <= 0x0d) || v == 0x20 || v == 0x85 || v == 0xa0 || v == 0x1680 || (0x2000 <= v
        && v <= 0x200a) || v == 0x2028 || v == 0x2029 || v == 0x202f || v == 0x205f || v == 0x3000
}

/// The characters of a string.
pub fn chars_of(s: &str) -> (r: Vec<char>)
    ensures
        r@ == s@,
{
    let mut out: Vec<char> = Vec::new();
    for c in it: s.chars()
        invariant
            out@ == it.seq().take(it.index() as int),
            it.seq() == s@,
    {
        out.push(c);
    }
    out
}

/// A string made of `cs`.
pub fn string_of(cs: &[char]) -> (r: String)
    ensures
        r@ == cs@,
{
    let mut out = String::new();
    for i in 0..cs.len()
        invariant
            out@ == cs@.take(i as int),
    {
        out.push(cs[i]);
    }
    assert(cs@.take(cs@.len() as int) == cs@);
    out
}

/// How many characters at the start of `s` satisfy `f` without a break.
pub open spec fn span(s: Seq<char>, f: spec_fn(char) -> bool) -> nat
    decreases s.len(),
{
    if s.len() == 0 || !f(s[0]) {
        0
    } else {
        1 + span(s.drop_first(), f)
    }
}

pub open spec fn white() -> spec_fn(char) -> bool {
    |c: char| is_white(c)
}

pub open spec fn ink() -> spec_fn(char) -> bool {
    |c: char| !is_white(c)
}

pub open spec fn equal_to(x: char) -> spec_fn(char) -> bool {
    |c: char| c == x
}

pub open spec fn other_than(x: char) -> spec_fn(char) -> bool {
    |c: char| c != x
}

/// The span ends at the first character that does not satisfy `f`.
pub proof fn lemma_span(s: Seq<char>, f: spec_fn(char) -> bool)
    ensures
        span(s, f) <= s.len(),
        forall|i: int| 0 <= i < span(s, f) ==> f(#[trigger] s[i]),
        span(s, f) < s.len() ==> !f(s[span(s, f) as int]),
    decreases s.len(),
{
    if s.len() > 0 && f(s[0]) {
        let rest = s.drop_first();
        lemma_span(rest, f);
        assert forall|i: int| 0 <= i < span(s, f) implies f(#[trigger] s[i]) by {
            if i > 0 {
                assert(s[i] == rest[i - 1]);
            }
        }
        if span(s, f) < s.len() {
            assert(s[span(s, f) as int] == rest[span(rest, f) as int]);
        }
    }
}

/// Only the length of the span has that property.
pub proof fn lemma_span_unique(s: Seq<char>, f: spec_fn(char) -> bool, n: nat)
    requires
        n <= s.len(),
        forall|i: int| 0 <= i < n ==> f(#[trigger] s[i]),
        n < s.len() ==> !f(s[n as int]),
    ensures
        span(s, f) == n,
{
    lemma_span(s, f);
    if span(s, f) < n {
        assert(f(s[span(s, f) as int]));
    }
}

/// `s` without the characters at its start that satisfy `f`.
pub open spec fn strip_start(s: Seq<char>, f: spec_fn(char) -> bool) -> Seq<char> {
    s.skip(span(s, f) as int)
}

/// `s` without the characters at its end that satisfy `f`.
pub open spec fn strip_end(s: Seq<char>, f: spec_fn(char) -> bool) -> Seq<char>
    decreases s.len(),
{
    if s.len() > 0 && f(s.last()) {
        strip_end(s.drop_last(), f)
    } else {
        s
    }
}

/// `s` without white space at either end.
pub open spec fn trimmed(s: Seq<char>) -> Seq<char> {
    strip_end(strip_start(s, white()), white())
}

/// Nothing but white space.
pub open spec fn is_blank(s: Seq<char>) -> bool {
    forall|i: int| 0 <= i < s.len() ==> is_white(#[trigger] s[i])
}

/// Stripping takes off the longest run at the end that satisfies `f`.
pub proof fn lemma_strip_end(s: Seq<char>, f: spec_fn(char) -> bool)
    ensures
        strip_end(s, f).len() <= s.len(),
        strip_end(s, f) == s.take(strip_end(s, f).len() as int),
        strip_end(s, f).len() > 0 ==> !f(strip_end(s, f).last()),
        forall|i: int| strip_end(s, f).len() <= i < s.len() ==> f(#[trigger] s[i]),
    decreases s.len(),
{
    if s.len() > 0 && f(s.last()) {
        lemma_strip_end(s.drop_last(), f);
        let n = strip_end(s, f).len() as int;
        assert(s.drop_last().take(n) == s.take(n));
        assert forall|i: int| n <= i < s.len() implies f(#[trigger] s[i]) by {
            if i < s.len() - 1 {
                assert(s[i] == s.drop_last()[i]);
            }
        }
    } else {
        assert(s.take(s.len() as int) == s);
    }
}

/// Trimming leaves nothing exactly when there was nothing but white space.
pub proof fn lemma_trimmed_empty(s: Seq<char>)
    ensures
        trimmed(s).len() == 0 <==> is_blank(s),
{
    let t = strip_start(s, white());
    lemma_span(s, white());
    lemma_strip_end(t, white());
    if is_blank(s) {
        if span(s, white()) < s.len() {
            assert(is_white(s[span(s, white()) as int]));
        }
    } else {
        if trimmed(s).len() == 0 {
            assert forall|i: int| 0 <= i < s.len() implies is_white(#[trigger] s[i]) by {
                if i < span(s, white()) {
                    assert(white()(s[i]));
                } else {
                    assert(white()(t[i - span(s, white())]));
                }
            }
        }
    }
}

/// What trimming leaves has no white space at either end, and trimming it
/// again changes nothing.
pub proof fn lemma_trimmed_idempotent(s: Seq<char>)
    ensures
        trimmed(s).len() > 0 ==> !is_white(trimmed(s)[0]) && !is_white(trimmed(s).last()),
        trimmed(trimmed(s)) == trimmed(s),
{
    let t = strip_start(s, white());
    let r = trimmed(s);
    lemma_span(s, white());
    lemma_strip_end(t, white());
    if r.len() > 0 {
        assert(r[0] == t[0]);
        assert(t[0] == s[span(s, white()) as int]);
        lemma_span_unique(r, white(), 0);
        assert(r.skip(0) == r);
    } else {
        assert(r.skip(0) == r);
    }
}

/// `s` without white space at either end.
pub fn trim(s: &[char]) -> (r: &[char])
    ensures
        r@ == trimmed(s@),
{
    let mut lo: usize = 0;
    while lo < s.len() && is_whitespace(s[lo])
        invariant
            lo <= s@.len(),
            forall|i: int| 0 <= i < lo ==> is_white(#[trigger] s@[i]),
        decreases s@.len() - lo,
    {
        lo = lo + 1;
    }
    let ghost t = s@.skip(lo as int);
    proof {
        lemma_span_unique(s@, white(), lo as nat);
        assert(t.take(s@.len() - lo) == t);
    }
    let mut hi: usize = s.len();
    while lo < hi && is_whitespace(s[hi - 1])
        invariant
            lo <= hi <= s@.len(),
            t == s@.skip(lo as int),
            strip_end(t.take(hi - lo), white()) == strip_end(t, white()),
        decreases hi - lo,
    {
        assert(t.take(hi - lo).last() == s@[hi - 1]);
        assert(t.take(hi - lo).drop_last() == t.take(hi - lo - 1));
        hi = hi - 1;
    }
    let r = slice_subrange(s, lo, hi);
    assert(r@ == t.take(hi - lo));
    if lo < hi {
        assert(r@.last() == s@[hi - 1]);
    }
    r
}

/// `s` without any `x` at its end.
pub fn drop_last_all<'a>(s: &'a [char], x: char) -> (r: &'a [char])
    ensures
        r@ == strip_end(s@, equal_to(x)),
{
    let mut hi: usize = s.len();
    assert(s@.take(hi as int) == s@);
    while hi > 0 && s[hi - 1] == x
        invariant
            hi <= s@.len(),
            strip_end(s@.take(hi as int), equal_to(x)) == strip_end(s@, equal_to(x)),
        decreases hi,
    {
        assert(s@.take(hi as int).drop_last() == s@.take(hi - 1));
        assert(s@.take(hi as int).last() == x);
        hi = hi - 1;
    }
    let r = slice_subrange(s, 0, hi);
    assert(r@ == s@.take(hi as int));
    if hi > 0 {
        assert(r@.last() == s@[hi - 1]);
    }
    r
}

/// `s` without white space at either end, as a string.
pub fn trim_str(s: &str) -> (r: String)
    ensures
        r@ == trimmed(s@),
{
    let cs = chars_of(s);
    string_of(trim(cs.as_slice()))
}

/// Whether `s` holds nothing but white space.
pub fn blank(s: &str) -> (r: bool)
    ensures
        r == is_blank(s@),
{
    let cs = chars_of(s);
    proof {
        lemma_trimmed_empty(s@);
    }
    trim(cs.as_slice()).len() == 0
}

/// The sequences that slices stand for.
pub open spec fn views(v: Seq<&[char]>) -> Seq<Seq<char>> {
    v.map_values(|p: &[char]| p@)
}

/// The pieces of `s` between the occurrences of `sep`.
pub open spec fn split_on(s: Seq<char>, sep: char) -> Seq<Seq<char>>
    decreases s.len(),
{
    let n = span(s, other_than(sep)) as int;
    if n >= s.len() {
        seq![s]
    } else {
        seq![s.take(n)] + split_on(s.skip(n + 1), sep)
    }
}

/// The two sides of the first occurrence of `sep`.
pub open spec fn split_first(s: Seq<char>, sep: char) -> Option<(Seq<char>, Seq<char>)> {
    let n = span(s, other_than(sep)) as int;
    if n >= s.len() {
        None
    } else {
        Some((s.take(n), s.skip(n + 1)))
    }
}

/// The position of the first `sep` in `s`, or the length of `s`.
pub fn position(s: &[char], sep: char) -> (n: usize)
    ensures
        n == span(s@, other_than(sep)),
        n <= s@.len(),
{
    let mut n: usize = 0;
    while n < s.len() && s[n] != sep
        invariant
            n <= s@.len(),
            forall|i: int| 0 <= i < n ==> #[trigger] s@[i] != sep,
        decreases s@.len() - n,
    {
        n = n + 1;
    }
    proof {
        lemma_span_unique(s@, other_than(sep), n as nat);
    }
    n
}

/// The pieces of `s` between the occurrences of `sep`.
pub fn split<'a>(s: &'a [char], sep: char) -> (r: Vec<&'a [char]>)
    ensures
        views(r@) == split_on(s@, sep),
{
    let mut out: Vec<&'a [char]> = Vec::new();
    let mut rest: &'a [char] = s;
    proof {
        assert(views(out@) + split_on(rest@, sep) == split_on(s@, sep));
    }
    loop
        invariant_except_break
            views(out@) + split_on(rest@, sep) == split_on(s@, sep),
        ensures
            views(out@) == split_on(s@, sep),
        decreases rest@.len(),
    {
        let n: usize = position(rest, sep);
        let ghost before = out@;
        if n == rest.len() {
            out.push(rest);
            assert(views(out@) == views(before).push(rest@));
            break;
        }
        let piece = slice_subrange(rest, 0, n);
        out.push(piece);
        assert(piece@ == rest@.take(n as int));
        assert(views(out@) == views(before).push(piece@));
        let next = slice_subrange(rest, n + 1, rest.len());
        assert(next@ == rest@.skip(n + 1));
        assert(views(out@) + split_on(next@, sep) == views(before) + (seq![piece@] + split_on(
            next@,
            sep,
        )));
        rest = next;
    }
    out
}

/// A piece without `sep` in front of a `sep` is the first piece.
pub proof fn lemma_split_on(piece: Seq<char>, sep: char, rest: Seq<char>)
    requires
        forall|i: int| 0 <= i < piece.len() ==> #[trigger] piece[i] != sep,
    ensures
        split_on(piece + seq![sep] + rest, sep) == seq![piece] + split_on(rest, sep),
{
    let s = piece + seq![sep] + rest;
    let n = piece.len();
    assert forall|i: int| 0 <= i < n implies other_than(sep)(#[trigger] s[i]) by {
        assert(s[i] == piece[i]);
    }
    assert(s[n as int] == sep);
    lemma_span_unique(s, other_than(sep), n);
    assert(s.take(n as int) =~= piece);
    assert(s.skip(n as int + 1) =~= rest);
}

/// A text without `sep` is one piece.
pub proof fn lemma_split_on_last(piece: Seq<char>, sep: char)
    requires
        forall|i: int| 0 <= i < piece.len() ==> #[trigger] piece[i] != sep,
    ensures
        split_on(piece, sep) == seq![piece],
{
    lemma_span_unique(piece, other_than(sep), piece.len());
}

/// The runs of characters between white space.
pub open spec fn words(s: Seq<char>) -> Seq<Seq<char>>
    decreases s.len(),
{
    let t = strip_start(s, white());
    let n = span(t, ink()) as int;
    if n == 0 || n > t.len() || t.len() > s.len() {
        seq![]
    } else {
        seq![t.take(n)] + words(t.skip(n))
    }
}

/// The runs of characters between white space.
pub fn split_words<'a>(s: &'a [char]) -> (r: Vec<&'a [char]>)
    ensures
        views(r@) == words(s@),
{
    let mut out: Vec<&'a [char]> = Vec::new();
    let mut rest: &'a [char] = s;
    assert(views(out@) + words(rest@) == words(s@));
    loop
        invariant
            views(out@) + words(rest@) == words(s@),
        ensures
            views(out@) == words(s@),
        decreases rest@.len(),
    {
        let ghost before = out@;
        let mut lo: usize = 0;
        while lo < rest.len() && is_whitespace(rest[lo])
            invariant
                lo <= rest@.len(),
                forall|i: int| 0 <= i < lo ==> is_white(#[trigger] rest@[i]),
            decreases rest@.len() - lo,
        {
            lo = lo + 1;
        }
        proof {
            lemma_span_unique(rest@, white(), lo as nat);
        }
        let ghost t = rest@.skip(lo as int);
        let mut hi: usize = lo;
        while hi < rest.len() && !is_whitespace(rest[hi])
            invariant
                lo <= hi <= rest@.len(),
                t == rest@.skip(lo as int),
                forall|i: int| 0 <= i < hi - lo ==> !is_white(#[trigger] t[i]),
            decreases rest@.len() - hi,
        {
            assert(t[hi - lo] == rest@[hi as int]);
            hi = hi + 1;
        }
        proof {
            if hi < rest@.len() {
                assert(t[hi - lo] == rest@[hi as int]);
            }
            lemma_span_unique(t, ink(), (hi - lo) as nat);
        }
        if hi == lo {
            assert(words(rest@) == Seq::<Seq<char>>::empty());
            break;
        }
        let word = slice_subrange(rest, lo, hi);
        out.push(word);
        assert(word@ == t.take(hi - lo));
        assert(views(out@) == views(before).push(word@));
        let next = slice_subrange(rest, hi, rest.len());
        assert(next@ == t.skip(hi - lo));
        assert(views(out@) + words(next@) == views(before) + (seq![word@] + words(next@)));
        rest = next;
    }
    out
}

/// A line without the carriage return that ended it, where there was one.
pub open spec fn without_cr(s: Seq<char>) -> Seq<char> {
    if s.len() > 0 && s.last() == '\r' {
        s.drop_last()
    } else {
        s
    }
}

/// The lines of `s`: what stands between line feeds, each line feed taking the
/// carriage return before it along.
pub open spec fn header_lines(s: Seq<char>) -> Seq<Seq<char>>
    decreases s.len(),
{
    let n = span(s, other_than('\n')) as int;
    if n >= s.len() {
        seq![s]
    } else {
        seq![without_cr(s.take(n))] + header_lines(s.skip(n + 1))
    }
}

/// The first line of `s`; an empty text has none.
pub open spec fn first_line(s: Seq<char>) -> Option<Seq<char>> {
    if s.len() == 0 {
        None
    } else {
        Some(header_lines(s)[0])
    }
}

/// `line` without a carriage return at its end.
pub fn drop_cr<'a>(line: &'a [char]) -> (r: &'a [char])
    ensures
        r@ == without_cr(line@),
{
    let n: usize = line.len();
    if n > 0 && line[n - 1] == '\r' {
        let r = slice_subrange(line, 0, n - 1);
        assert(r@ == line@.drop_last());
        r
    } else {
        line
    }
}

/// The lines of `s`, which line feeds end, with or without a carriage return.
/// What stands behind the last of them is a line too, though it be empty.
pub fn split_lines<'a>(s: &'a [char]) -> (r: Vec<&'a [char]>)
    ensures
        views(r@) == header_lines(s@),
        r@.len() > 0,
{
    let mut out: Vec<&'a [char]> = Vec::new();
    let mut rest: &'a [char] = s;
    assert(views(out@) + header_lines(rest@) == header_lines(s@));
    loop
        invariant_except_break
            views(out@) + header_lines(rest@) == header_lines(s@),
        ensures
            views(out@) == header_lines(s@),
            out@.len() > 0,
        decreases rest@.len(),
    {
        let n: usize = position(rest, '\n');
        let ghost before = out@;
        if n == rest.len() {
            out.push(rest);
            assert(views(out@) == views(before).push(rest@));
            break;
        }
        let line = slice_subrange(rest, 0, n);
        assert(line@ == rest@.take(n as int));
        let line = drop_cr(line);
        out.push(line);
        assert(views(out@) == views(before).push(line@));
        let next = slice_subrange(rest, n + 1, rest.len());
        assert(next@ == rest@.skip(n + 1));
        assert(views(out@) + header_lines(next@) == views(before) + (seq![line@] + header_lines(
            next@,
        )));
        rest = next;
    }
    out
}

/// An ASCII capital as its small letter; every other character as it is.
pub open spec fn ascii_small(c: char) -> char {
    if 'A' <= c <= 'Z' {
        ((c as u32 + 32) as u32) as char
    } else {
        c
    }
}

/// Each character by [`ascii_small`].
pub open spec fn ascii_lower(s: Seq<char>) -> Seq<char> {
    s.map_values(|c: char| ascii_small(c))
}

/// A small ASCII letter as its capital; every other character as it is.
pub open spec fn ascii_capital(c: char) -> char {
    if 'a' <= c <= 'z' {
        ((c as u32 - 32) as u32) as char
    } else {
        c
    }
}

/// Each character by [`ascii_capital`].
pub open spec fn ascii_upper(s: Seq<char>) -> Seq<char> {
    s.map_values(|c: char| ascii_capital(c))
}

/// A string in lower case: letter by letter where all its characters are ASCII,
/// and as `str::to_lowercase` has it otherwise.
pub open spec fn lowered(s: Seq<char>) -> Seq<char> {
    if vstd::utf8::is_ascii_chars(s) {
        ascii_lower(s)
    } else {
        lowercase(s)
    }
}

/// Capitals make no difference to where the white space is, and none in lower
/// case.
pub proof fn lemma_upper(s: Seq<char>)
    requires
        vstd::utf8::is_ascii_chars(s),
    ensures
        vstd::utf8::is_ascii_chars(trimmed(s)),
        trimmed(ascii_upper(s)) == ascii_upper(trimmed(s)),
        vstd::utf8::is_ascii_chars(ascii_upper(trimmed(s))),
        ascii_lower(ascii_upper(trimmed(s))) == ascii_lower(trimmed(s)),
{
    let u = ascii_upper(s);
    let n = span(s, white());
    lemma_span(s, white());
    assert forall|i: int| 0 <= i < n implies white()(#[trigger] u[i]) by {
        assert(white()(s[i]));
    }
    lemma_span_unique(u, white(), n);
    let t = s.skip(n as int);
    assert(u.skip(n as int) =~= ascii_upper(t));
    lemma_strip_end_upper(t);
    lemma_strip_end(t, white());
    let m = trimmed(s);
    assert forall|i: int| 0 <= i < m.len() implies '\0' <= #[trigger] m[i] <= '\u{7f}' by {
        assert(m[i] == s[n + i]);
    }
    assert(ascii_lower(ascii_upper(m)) =~= ascii_lower(m));
}

proof fn lemma_strip_end_upper(s: Seq<char>)
    ensures
        strip_end(ascii_upper(s), white()) == ascii_upper(strip_end(s, white())),
    decreases s.len(),
{
    if s.len() > 0 {
        assert(ascii_upper(s).last() == ascii_capital(s.last()));
        assert(ascii_upper(s).drop_last() =~= ascii_upper(s.drop_last()));
        lemma_strip_end_upper(s.drop_last());
    }
}

/// Whether `a` and `b` differ at most in the case of ASCII letters.
pub fn same_letters(a: &[char], b: &[char]) -> (r: bool)
    ensures
        r == (ascii_lower(a@) == ascii_lower(b@)),
{
    if a.len() != b.len() {
        assert(ascii_lower(a@).len() != ascii_lower(b@).len());
        return false;
    }
    let mut i: usize = 0;
    while i < a.len()
        invariant
            i <= a@.len() == b@.len(),
            forall|j: int| 0 <= j < i ==> ascii_small(#[trigger] a@[j]) == ascii_small(b@[j]),
        decreases a@.len() - i,
    {
        if small(a[i]) != small(b[i]) {
            assert(ascii_lower(a@)[i as int] != ascii_lower(b@)[i as int]);
            return false;
        }
        i = i + 1;
    }
    assert(ascii_lower(a@) =~= ascii_lower(b@));
    true
}

fn small(c: char) -> (r: char)
    ensures
        r == ascii_small(c),
{
    if 'A' <= c && c <= 'Z' {
        ((c as u8) + 32) as char
    } else {
        c
    }
}

/// The digit of value `d`.
pub open spec fn digit(d: int) -> char {
    ((48 + d) as u32) as char
}

/// `n` in base ten, without leading zeros.
pub open spec fn decimal(n: nat) -> Seq<char>
    decreases n,
{
    if n < 10 {
        seq![digit(n as int)]
    } else {
        decimal(n / 10).push(digit((n % 10) as int))
    }
}

/// Writes `n` in base ten at the end of `out`.
pub fn push_decimal(out: &mut String, n: u64)
    ensures
        final(out)@ == old(out)@ + decimal(n as nat),
    decreases n,
{
    if n >= 10 {
        push_decimal(out, n / 10);
    }
    let d: u8 = (n % 10) as u8;
    out.push((48 + d) as char);
    assert(out@ == old(out)@ + decimal(n as nat));
}

pub open spec fn is_digit(c: char) -> bool {
    '0' <= c <= '9'
}

/// The value of a run of digits.
pub open spec fn digits_value(s: Seq<char>) -> nat
    decreases s.len(),
{
    if s.len() == 0 {
        0
    } else {
        digits_value(s.drop_last()) * 10 + (s.last() as u32 - 48) as nat
    }
}

/// `s` without a plus sign at its start.
pub open spec fn without_plus(s: Seq<char>) -> Seq<char> {
    if s.len() > 0 && s[0] == '+' {
        s.drop_first()
    } else {
        s
    }
}

/// The number that `s` denotes: digits, behind a plus sign or not, of a value
/// up to `max`. Anything else, a space included, denotes none.
pub open spec fn number(s: Seq<char>, max: nat) -> Option<nat> {
    let d = without_plus(s);
    if d.len() > 0 && (forall|i: int| 0 <= i < d.len() ==> is_digit(#[trigger] d[i]))
        && digits_value(d) <= max {
        Some(digits_value(d))
    } else {
        None
    }
}

/// The number that `s` denotes, where it is at most `max`.
pub fn parse_number(s: &[char], max: u64) -> (r: Option<u64>)
    ensures
        r is Some <==> number(s@, max as nat) is Some,
        r matches Some(v) ==> number(s@, max as nat) == Some(v as nat),
{
    let d: &[char] = if s.len() > 0 && s[0] == '+' {
        let rest = slice_subrange(s, 1, s.len());
        assert(rest@ == s@.drop_first());
        rest
    } else {
        s
    };
    if d.len() == 0 {
        return None;
    }
    let mut i: usize = 0;
    let mut value: u64 = 0;
    let mut over: bool = false;
    while i < d.len()
        invariant
            i <= d@.len(),
            d@ == without_plus(s@),
            forall|j: int| 0 <= j < i ==> is_digit(#[trigger] d@[j]),
            !over ==> value == digits_value(d@.take(i as int)) && value <= max,
            over ==> digits_value(d@.take(i as int)) > max,
        decreases d@.len() - i,
    {
        let c = d[i];
        if !('0' <= c && c <= '9') {
            assert(!is_digit(d@[i as int]));
            return None;
        }
        let v: u64 = (c as u32 - 48) as u64;
        assert(d@.take(i + 1).drop_last() == d@.take(i as int));
        assert(d@.take(i + 1).last() == c);
        if !over {
            if v > max || value > max / 10 || value * 10 > max - v {
                over = true;
            } else {
                value = value * 10 + v;
            }
        }
        i = i + 1;
    }
    assert(d@.take(i as int) == d@);
    if over {
        None
    } else {
        Some(value)
    }
}

/// A number in base ten denotes itself.
pub proof fn law_number_of_decimal(n: nat, max: nat)
    requires
        n <= max,
    ensures
        number(decimal(n), max) == Some(n),
{
    lemma_decimal(n);
    assert(decimal(n)[0] != '+');
}

/// The digits of `decimal(n)`, and their value.
pub proof fn lemma_decimal(n: nat)
    ensures
        decimal(n).len() > 0,
        forall|i: int| 0 <= i < decimal(n).len() ==> is_digit(#[trigger] decimal(n)[i]),
        digits_value(decimal(n)) == n,
    decreases n,
{
    if n >= 10 {
        lemma_decimal(n / 10);
        assert(decimal(n).drop_last() == decimal(n / 10));
        assert(decimal(n).last() as u32 == 48 + n % 10);
    } else {
        assert(decimal(n).drop_last() == Seq::<char>::empty());
        assert(digits_value(Seq::<char>::empty()) == 0);
        assert(decimal(n).last() as u32 == 48 + n);
    }
}

/// The order of strings: by the first character in which they differ, a
/// prefix before what it begins.
pub open spec fn precedes(a: Seq<char>, b: Seq<char>) -> bool
    decreases a.len(),
{
    if b.len() == 0 {
        false
    } else if a.len() == 0 {
        true
    } else if a[0] != b[0] {
        a[0] < b[0]
    } else {
        precedes(a.drop_first(), b.drop_first())
    }
}

/// No string comes before itself.
pub proof fn law_precedes_irreflexive(a: Seq<char>)
    ensures
        !precedes(a, a),
    decreases a.len(),
{
    if a.len() > 0 {
        law_precedes_irreflexive(a.drop_first());
    }
}

/// What comes before `b` comes before what `b` comes before.
pub proof fn law_precedes_transitive(a: Seq<char>, b: Seq<char>, c: Seq<char>)
    requires
        precedes(a, b),
        precedes(b, c),
    ensures
        precedes(a, c),
    decreases a.len(),
{
    if a.len() > 0 && a[0] == b[0] && b[0] == c[0] {
        law_precedes_transitive(a.drop_first(), b.drop_first(), c.drop_first());
    }
}

/// Of two different strings one comes before the other.
pub proof fn law_precedes_total(a: Seq<char>, b: Seq<char>)
    ensures
        a == b || precedes(a, b) || precedes(b, a),
    decreases a.len(),
{
    if a.len() > 0 && b.len() > 0 && a[0] == b[0] {
        law_precedes_total(a.drop_first(), b.drop_first());
        if a.drop_first() == b.drop_first() {
            assert(a == seq![a[0]] + a.drop_first());
            assert(b == seq![b[0]] + b.drop_first());
        }
    } else if a.len() == 0 && b.len() == 0 {
        assert(a =~= b);
    }
}

/// The order of strings.
pub open spec fn alphabetical() -> spec_fn(Seq<char>, Seq<char>) -> bool {
    |a: Seq<char>, b: Seq<char>| precedes(a, b)
}

pub proof fn lemma_alphabetical()
    ensures
        order::is_order(alphabetical()),
{
    assert forall|a: Seq<char>| !#[trigger] alphabetical()(a, a) by {
        law_precedes_irreflexive(a);
    }
    assert forall|a: Seq<char>, b: Seq<char>, c: Seq<char>| #[trigger]
        alphabetical()(a, b) && #[trigger] alphabetical()(b, c) implies alphabetical()(a, c) by {
        law_precedes_transitive(a, b, c);
    }
}

/// Whether `a` comes before `b`.
pub fn before(a: &str, b: &str) -> (r: bool)
    ensures
        r == precedes(a@, b@),
{
    let x = chars_of(a);
    let y = chars_of(b);
    let mut i: usize = 0;
    assert(x@.skip(0) == x@ && y@.skip(0) == y@);
    while i < x.len() && i < y.len()
        invariant
            i <= x@.len(),
            i <= y@.len(),
            x@ == a@,
            y@ == b@,
            precedes(a@, b@) == precedes(x@.skip(i as int), y@.skip(i as int)),
        decreases x@.len() - i,
    {
        assert(x@.skip(i as int).drop_first() == x@.skip(i + 1));
        assert(y@.skip(i as int).drop_first() == y@.skip(i + 1));
        if x[i] != y[i] {
            return x[i] < y[i];
        }
        i = i + 1;
    }
    i < y.len()
}

/// Whether the two strings hold the same characters.
pub fn same(a: &str, b: &str) -> (r: bool)
    ensures
        r == (a@ == b@),
{
    let x = chars_of(a);
    let y = chars_of(b);
    if x.len() != y.len() {
        return false;
    }
    let mut i: usize = 0;
    while i < x.len()
        invariant
            i <= x@.len() == y@.len(),
            x@ == a@,
            y@ == b@,
            forall|j: int| 0 <= j < i ==> #[trigger] x@[j] == y@[j],
        decreases x@.len() - i,
    {
        if x[i] != y[i] {
            assert(a@[i as int] != b@[i as int]);
            return false;
        }
        i = i + 1;
    }
    assert(x@ =~= y@);
    true
}

/// Whether `s` begins with `prefix`.
pub fn starts_with(s: &str, prefix: &str) -> (r: bool)
    ensures
        r == (prefix@.len() <= s@.len() && s@.take(prefix@.len() as int) == prefix@),
{
    let x = chars_of(s);
    let y = chars_of(prefix);
    if x.len() < y.len() {
        return false;
    }
    let mut i: usize = 0;
    while i < y.len()
        invariant
            i <= y@.len() <= x@.len(),
            x@ == s@,
            y@ == prefix@,
            forall|j: int| 0 <= j < i ==> #[trigger] x@[j] == y@[j],
        decreases y@.len() - i,
    {
        if x[i] != y[i] {
            assert(s@.take(prefix@.len() as int)[i as int] != prefix@[i as int]);
            return false;
        }
        i = i + 1;
    }
    assert(s@.take(prefix@.len() as int) =~= prefix@);
    true
}

/// What strings hold.
pub open spec fn texts(v: Seq<String>) -> Seq<Seq<char>> {
    v.map_values(|s: String| s@)
}

/// The pieces one after another, with `sep` between them.
pub open spec fn joined(pieces: Seq<Seq<char>>, sep: Seq<char>) -> Seq<char>
    decreases pieces.len(),
{
    if pieces.len() == 0 {
        seq![]
    } else if pieces.len() == 1 {
        pieces[0]
    } else {
        joined(pieces.drop_last(), sep) + sep + pieces.last()
    }
}

/// The strings one after another, with `sep` between them.
pub fn join(pieces: &Vec<String>, sep: &str) -> (r: String)
    ensures
        r@ == joined(texts(pieces@), sep@),
{
    let mut out = String::new();
    let mut i: usize = 0;
    while i < pieces.len()
        invariant
            i <= pieces@.len(),
            out@ == joined(texts(pieces@).take(i as int), sep@),
        decreases pieces@.len() - i,
    {
        let ghost done = texts(pieces@).take(i as int);
        let ghost more = texts(pieces@).take(i + 1);
        assert(more.drop_last() == done);
        assert(more.last() == pieces@[i as int]@);
        if i > 0 {
            out.append(sep);
        }
        out.append(pieces[i].as_str());
        if i == 0 {
            assert(out@ == more[0]);
        }
        i = i + 1;
    }
    assert(texts(pieces@).take(i as int) == texts(pieces@));
    out
}

/// `s` with spaces behind it, up to `width` characters.
pub open spec fn padded(s: Seq<char>, width: nat) -> Seq<char>
    decreases width,
{
    if s.len() >= width {
        s
    } else {
        padded(s, (width - 1) as nat).push(' ')
    }
}

/// `s` with spaces behind it, up to `width` characters.
pub fn pad(s: &str, width: usize) -> (r: String)
    ensures
        r@ == padded(s@, width as nat),
{
    let mut out = s.to_owned();
    let mut n: usize = s.unicode_len();
    proof {
        assert(padded(s@, n as nat) == s@);
    }
    while n < width
        invariant
            s@.len() <= n,
            out@ == padded(s@, n as nat),
            n <= width || out@ == padded(s@, width as nat),
        decreases width - n,
    {
        out.push(' ');
        n = n + 1;
    }
    out
}

/// What `str::to_lowercase` makes of a string.
pub uninterp spec fn lowercase(s: Seq<char>) -> Seq<char>;

/// `str::to_lowercase`: every character in its lower case as Unicode has it,
/// which for a string of ASCII characters is [`ascii_lower`].
#[verifier::external_body]
pub(crate) fn to_lower(s: &str) -> (r: String)
    ensures
        r@ == lowercase(s@),
        vstd::utf8::is_ascii_chars(s@) ==> r@ == ascii_lower(s@),
{
    s.to_lowercase()
}

/// What formatting a string with `{:?}` gives.
pub uninterp spec fn quoted(s: Seq<char>) -> Seq<char>;

/// `{:?}` on a string: the string between double quotes, with what needs it
/// escaped.
#[verifier::external_body]
pub(crate) fn quote(s: &str) -> (r: String)
    ensures
        r@ == quoted(s@),
{
    format!("{:?}", s)
}

/// `std::str::from_utf8`: the characters that the bytes encode, where the bytes
/// are UTF-8.
#[verifier::external_body]
pub(crate) fn utf8<'a>(bytes: &'a [u8]) -> (r: Option<&'a str>)
    ensures
        r is Some <==> vstd::utf8::valid_utf8(bytes@),
        r matches Some(s) ==> s@ == vstd::utf8::decode_utf8(bytes@),
{
    std::str::from_utf8(bytes).ok()
}

/// What `String::from_utf8_lossy` makes of bytes.
pub uninterp spec fn lossy(bytes: Seq<u8>) -> Seq<char>;

/// `String::from_utf8_lossy`: the characters that the bytes encode, a
/// replacement character in place of what is not UTF-8.
#[verifier::external_body]
pub(crate) fn utf8_lossy(bytes: &[u8]) -> (r: String)
    ensures
        r@ == lossy(bytes@),
        vstd::utf8::valid_utf8(bytes@) ==> r@ == vstd::utf8::decode_utf8(bytes@),
{
    String::from_utf8_lossy(bytes).into_owned()
}

/// The thousandths of a second behind a point, without zeros at the end; nothing
/// where there are none.
pub open spec fn thousandths(millis: int) -> Seq<char> {
    if millis == 0 {
        seq![]
    } else if millis % 100 == 0 {
        seq!['.', digit(millis / 100)]
    } else if millis % 10 == 0 {
        seq!['.', digit(millis / 100), digit(millis / 10 % 10)]
    } else {
        seq!['.', digit(millis / 100), digit(millis / 10 % 10), digit(millis % 10)]
    }
}

/// A time of so many milliseconds in words: in seconds from one second on, in
/// milliseconds below, and no time at all as `0ns`.
pub open spec fn duration_text(millis: u64) -> Seq<char> {
    if millis >= 1000 {
        decimal((millis / 1000) as nat) + thousandths(millis as int % 1000) + "s"@
    } else if millis > 0 {
        decimal(millis as nat) + "ms"@
    } else {
        "0ns"@
    }
}

/// A time of so many milliseconds in words.
pub fn show_duration(millis: u64) -> (r: String)
    ensures
        r@ == duration_text(millis),
{
    let mut out = String::new();
    if millis >= 1000 {
        push_decimal(&mut out, millis / 1000);
        let ghost whole = out@;
        let rest: u64 = millis % 1000;
        if rest > 0 {
            let hundreds: u8 = (rest / 100) as u8;
            let tens: u8 = (rest / 10 % 10) as u8;
            let ones: u8 = (rest % 10) as u8;
            out.push('.');
            out.push((48 + hundreds) as char);
            if tens > 0 || ones > 0 {
                out.push((48 + tens) as char);
            }
            if ones > 0 {
                out.push((48 + ones) as char);
            }
            assert(rest == 100 * hundreds + 10 * tens + ones);
        }
        assert(out@ =~= decimal((millis / 1000) as nat) + thousandths(rest as int));
        out.append("s");
    } else if millis > 0 {
        push_decimal(&mut out, millis);
        out.append("ms");
        assert(out@ =~= duration_text(millis));
    } else {
        out.append("0ns");
        assert(out@ =~= duration_text(millis));
    }
    out
}

} // verus!
