//! What the functions on text do, told by the characters that go in and come out.

use vstd::prelude::*;
use crate::text;

verus! {

/// White space is these characters and no others.
pub proof fn law_white_space(c: char, r: bool)
    requires
        call_ensures(text::is_whitespace, (c,), r),
    ensures
        r <==> seq![
            '\t',
            '\n',
            '\u{b}',
            '\u{c}',
            '\r',
            ' ',
            '\u{85}',
            '\u{a0}',
            '\u{1680}',
            '\u{2000}',
            '\u{2001}',
            '\u{2002}',
            '\u{2003}',
            '\u{2004}',
            '\u{2005}',
            '\u{2006}',
            '\u{2007}',
            '\u{2008}',
            '\u{2009}',
            '\u{200a}',
            '\u{2028}',
            '\u{2029}',
            '\u{202f}',
            '\u{205f}',
            '\u{3000}',
        ].contains(c),
{
    let all = seq![
        '\t',
        '\n',
        '\u{b}',
        '\u{c}',
        '\r',
        ' ',
        '\u{85}',
        '\u{a0}',
        '\u{1680}',
        '\u{2000}',
        '\u{2001}',
        '\u{2002}',
        '\u{2003}',
        '\u{2004}',
        '\u{2005}',
        '\u{2006}',
        '\u{2007}',
        '\u{2008}',
        '\u{2009}',
        '\u{200a}',
        '\u{2028}',
        '\u{2029}',
        '\u{202f}',
        '\u{205f}',
        '\u{3000}',
    ];
    assert(all[0] == '\t' && all[1] == '\n' && all[2] == '\u{b}' && all[3] == '\u{c}' && all[4]
        == '\r' && all[5] == ' ' && all[6] == '\u{85}' && all[7] == '\u{a0}' && all[8]
        == '\u{1680}');
    assert(all[9] == '\u{2000}' && all[10] == '\u{2001}' && all[11] == '\u{2002}' && all[12]
        == '\u{2003}' && all[13] == '\u{2004}' && all[14] == '\u{2005}' && all[15] == '\u{2006}'
        && all[16] == '\u{2007}' && all[17] == '\u{2008}' && all[18] == '\u{2009}' && all[19]
        == '\u{200a}');
    assert(all[20] == '\u{2028}' && all[21] == '\u{2029}' && all[22] == '\u{202f}' && all[23]
        == '\u{205f}' && all[24] == '\u{3000}');
}

/// Trimming takes the white space off both ends, all of it, and nothing else.
pub proof fn law_trimming(s: Seq<char>)
    ensures
        exists|a: Seq<char>, b: Seq<char>|
            {
                &&& s == #[trigger] (a + text::trimmed(s) + b)
                &&& forall|i: int| 0 <= i < a.len() ==> text::is_white(#[trigger] a[i])
                &&& forall|i: int| 0 <= i < b.len() ==> text::is_white(#[trigger] b[i])
            },
        text::trimmed(s).len() > 0 ==> !text::is_white(text::trimmed(s)[0]) && !text::is_white(
            text::trimmed(s).last(),
        ),
{
    let f = text::white();
    text::lemma_span(s, f);
    let n = text::span(s, f) as int;
    let t = text::strip_start(s, f);
    text::lemma_strip_end(t, f);
    text::lemma_trimmed_idempotent(s);
    let m = text::trimmed(s).len() as int;
    let a = s.take(n);
    let b = t.skip(m);
    assert(s =~= a + text::trimmed(s) + b);
    assert forall|i: int| 0 <= i < a.len() implies text::is_white(#[trigger] a[i]) by {
        assert(f(s[i]));
    }
    assert forall|i: int| 0 <= i < b.len() implies text::is_white(#[trigger] b[i]) by {
        assert(f(t[m + i]));
    }
}

/// The pieces of a text that was split hold no separator, and give the text again when
/// the separator is put between them.
pub proof fn law_split_is_undone_by_joining(s: Seq<char>, sep: char)
    ensures
        text::split_on(s, sep).len() > 0,
        text::joined(text::split_on(s, sep), seq![sep]) == s,
        forall|i: int, j: int|
            0 <= i < text::split_on(s, sep).len() && 0 <= j < text::split_on(s, sep)[i].len()
                ==> #[trigger] text::split_on(s, sep)[i][j] != sep,
    decreases s.len(),
{
    let f = text::other_than(sep);
    text::lemma_span(s, f);
    let n = text::span(s, f) as int;
    let pieces = text::split_on(s, sep);
    if n >= s.len() {
        assert(pieces =~= seq![s]);
        assert forall|i: int, j: int|
            0 <= i < pieces.len() && 0 <= j < pieces[i].len() implies #[trigger] pieces[i][j]
            != sep by {
            assert(f(s[j]));
        }
    } else {
        let rest = text::split_on(s.skip(n + 1), sep);
        law_split_is_undone_by_joining(s.skip(n + 1), sep);
        law_joining_from_the_front(s.take(n), rest, seq![sep]);
        assert(!f(s[n]));
        assert(s =~= s.take(n) + seq![sep] + s.skip(n + 1));
        assert forall|i: int, j: int|
            0 <= i < pieces.len() && 0 <= j < pieces[i].len() implies #[trigger] pieces[i][j]
            != sep by {
            if i == 0 {
                assert(f(s[j]));
            } else {
                assert(pieces[i] == rest[i - 1]);
                assert(rest[i - 1][j] != sep);
            }
        }
    }
}

/// Joined pieces begin with the first, then comes the separator, then the others
/// joined; one piece is joined to itself, and none to nothing.
pub proof fn law_joining_from_the_front(
    first: Seq<char>,
    rest: Seq<Seq<char>>,
    sep: Seq<char>,
)
    ensures
        text::joined(seq![], sep) == Seq::<char>::empty(),
        text::joined(seq![first], sep) == first,
        rest.len() > 0 ==> text::joined(seq![first] + rest, sep) == first + sep + text::joined(
            rest,
            sep,
        ),
    decreases rest.len(),
{
    let all = seq![first] + rest;
    if rest.len() == 1 {
        assert(all.drop_last() =~= seq![first]);
        assert(text::joined(seq![first], sep) == first);
        assert(text::joined(rest, sep) == rest[0]);
        assert(text::joined(all, sep) =~= first + sep + rest[0]);
    } else if rest.len() > 1 {
        law_joining_from_the_front(first, rest.drop_last(), sep);
        assert(all.drop_last() =~= seq![first] + rest.drop_last());
        assert(text::joined(all, sep) =~= first + sep + text::joined(rest, sep));
    }
}

/// A number below ten is written as its digit; any other as what it holds of tens,
/// followed by the digit of what is left.
pub proof fn law_decimal_digits(n: nat)
    ensures
        n < 10 ==> text::decimal(n) == seq!["0123456789"@[n as int]],
        n >= 10 ==> text::decimal(n) == text::decimal(n / 10) + text::decimal(n % 10),
{
    reveal_strlit("0123456789");
    if n >= 10 {
        assert(text::decimal(n) =~= text::decimal(n / 10) + text::decimal(n % 10));
    }
}

/// Zeros in front of a number, and a plus before them, make no difference to it; a
/// number that is too large is none.
pub proof fn law_number_reads(zeros: nat, plus: bool, n: nat, max: nat)
    ensures
        ({
            let digits = Seq::new(zeros, |i: int| '0') + text::decimal(n);
            let s = if plus {
                seq!['+'] + digits
            } else {
                digits
            };
            text::number(s, max) == (if n <= max {
                Some(n)
            } else {
                None
            })
        }),
{
    let head = Seq::new(zeros, |i: int| '0');
    let digits = head + text::decimal(n);
    let s = if plus {
        seq!['+'] + digits
    } else {
        digits
    };
    text::lemma_decimal(n);
    lemma_zeros(zeros, text::decimal(n));
    assert(text::without_plus(s) =~= digits) by {
        if plus {
            assert(s.drop_first() =~= digits);
        } else {
            assert(text::is_digit(digits[0])) by {
                if zeros > 0 {
                    assert(digits[0] == '0');
                } else {
                    assert(digits[0] == text::decimal(n)[0]);
                }
            }
        }
    }
    assert forall|i: int| 0 <= i < digits.len() implies text::is_digit(#[trigger] digits[i]) by {
        if i >= zeros {
            assert(digits[i] == text::decimal(n)[i - zeros]);
        } else {
            assert(digits[i] == '0');
        }
    }
}

proof fn lemma_zeros(zeros: nat, d: Seq<char>)
    ensures
        text::digits_value(Seq::new(zeros, |i: int| '0') + d) == text::digits_value(d),
    decreases zeros + d.len(),
{
    let head = Seq::new(zeros, |i: int| '0');
    if d.len() == 0 {
        if zeros > 0 {
            lemma_zeros((zeros - 1) as nat, d);
            assert((head + d).drop_last() =~= Seq::new((zeros - 1) as nat, |i: int| '0') + d);
        } else {
            assert(head + d =~= d);
        }
    } else {
        lemma_zeros(zeros, d.drop_last());
        assert((head + d).drop_last() =~= head + d.drop_last());
    }
}

/// What reads as a number is one or more of the ten digits, behind a plus or not.
pub proof fn law_number_is_digits(s: Seq<char>, max: nat)
    requires
        text::number(s, max) is Some,
    ensures
        text::number(s, max)->0 <= max,
        ({
            let digits = if s.len() > 0 && s[0] == '+' {
                s.skip(1)
            } else {
                s
            };
            digits.len() > 0 && forall|i: int|
                0 <= i < digits.len() ==> "0123456789"@.contains(#[trigger] digits[i])
        }),
{
    let digits = if s.len() > 0 && s[0] == '+' {
        s.skip(1)
    } else {
        s
    };
    assert(digits =~= text::without_plus(s));
    reveal_strlit("0123456789");
    let all = "0123456789"@;
    assert forall|i: int| 0 <= i < digits.len() implies all.contains(#[trigger] digits[i]) by {
        assert(text::is_digit(digits[i]));
        let k = digits[i] as u32 - '0' as u32;
        assert(all[k as int] == digits[i]);
    }
}

/// The words of a text: white space at its front does not count, a word reaches up to
/// the next white space, and white space alone holds none.
pub proof fn law_words(margin: Seq<char>, word: Seq<char>, rest: Seq<char>)
    requires
        forall|i: int| 0 <= i < margin.len() ==> text::is_white(#[trigger] margin[i]),
        word.len() > 0,
        forall|i: int| 0 <= i < word.len() ==> !text::is_white(#[trigger] word[i]),
        rest.len() > 0 ==> text::is_white(rest[0]),
    ensures
        text::words(margin + word + rest) == seq![word] + text::words(rest),
        text::words(margin) == Seq::<Seq<char>>::empty(),
{
    let s = margin + word + rest;
    let n = margin.len();
    assert forall|i: int| 0 <= i < n implies text::white()(#[trigger] s[i]) by {
        assert(s[i] == margin[i]);
    }
    assert(s[n as int] == word[0]);
    text::lemma_span_unique(s, text::white(), n);
    let t = text::strip_start(s, text::white());
    assert(t =~= word + rest);
    assert forall|i: int| 0 <= i < word.len() implies text::ink()(#[trigger] t[i]) by {
        assert(t[i] == word[i]);
    }
    if rest.len() > 0 {
        assert(t[word.len() as int] == rest[0]);
    }
    text::lemma_span_unique(t, text::ink(), word.len());
    assert(t.take(word.len() as int) =~= word);
    assert(t.skip(word.len() as int) =~= rest);
    assert forall|i: int| 0 <= i < margin.len() implies text::white()(#[trigger] margin[i]) by {
    }
    text::lemma_span_unique(margin, text::white(), n);
    assert(text::strip_start(margin, text::white()) =~= seq![]);
}

/// The lines of a text: each ends at a line feed, and a carriage return before that is
/// not a part of it; what comes behind the last line feed is the last line as it is.
pub proof fn law_lines(line: Seq<char>, rest: Seq<char>)
    requires
        forall|i: int| 0 <= i < line.len() ==> #[trigger] line[i] != '\n',
    ensures
        text::header_lines(line + seq!['\r', '\n'] + rest) == seq![line] + text::header_lines(rest),
        line.len() == 0 || line.last() != '\r' ==> text::header_lines(line + seq!['\n'] + rest)
            == seq![line] + text::header_lines(rest),
        text::header_lines(line) == seq![line],
{
    let f = text::other_than('\n');
    let long = line.push('\r');
    let a = line + seq!['\r', '\n'] + rest;
    assert(a =~= long + seq!['\n'] + rest);
    lemma_line(long, rest);
    lemma_line(line, rest);
    assert(long.drop_last() =~= line);
    assert forall|i: int| 0 <= i < line.len() implies f(#[trigger] line[i]) by {
    }
    text::lemma_span_unique(line, f, line.len());
}

proof fn lemma_line(line: Seq<char>, rest: Seq<char>)
    requires
        forall|i: int| 0 <= i < line.len() ==> #[trigger] line[i] != '\n',
    ensures
        text::header_lines(line + seq!['\n'] + rest) == seq![text::without_cr(line)]
            + text::header_lines(rest),
{
    let f = text::other_than('\n');
    let s = line + seq!['\n'] + rest;
    assert forall|i: int| 0 <= i < line.len() implies f(#[trigger] s[i]) by {
        assert(s[i] == line[i]);
    }
    assert(s[line.len() as int] == '\n');
    text::lemma_span_unique(s, f, line.len());
    assert(s.take(line.len() as int) =~= line);
    assert(s.skip(line.len() as int + 1) =~= rest);
}

/// Two texts have the same letters if they are as long and differ in the case of their
/// ASCII letters only.
pub proof fn law_same_letters(a: &[char], b: &[char], r: bool)
    requires
        call_ensures(text::same_letters, (a, b), r),
    ensures
        r <==> a@.len() == b@.len() && forall|i: int|
            0 <= i < a@.len() ==> one_letter(#[trigger] a@[i], b@[i]),
{
    lemma_same_letters(a@, b@);
}

pub(crate) proof fn lemma_same_letters(a: Seq<char>, b: Seq<char>)
    ensures
        text::ascii_lower(a) == text::ascii_lower(b) <==> a.len() == b.len() && forall|i: int|
            0 <= i < a.len() ==> one_letter(#[trigger] a[i], b[i]),
{
    let x = text::ascii_lower(a);
    let y = text::ascii_lower(b);
    assert(x.len() == a.len());
    assert(y.len() == b.len());
    if x == y {
        assert forall|i: int| 0 <= i < a.len() implies one_letter(#[trigger] a[i], b[i]) by {
            assert(x[i] == y[i]);
            lemma_one_letter(a[i], b[i]);
        }
    }
    if a.len() == b.len() && (forall|i: int|
        0 <= i < a.len() ==> one_letter(#[trigger] a[i], b[i])) {
        assert forall|i: int| 0 <= i < a.len() implies x[i] == y[i] by {
            assert(one_letter(a[i], b[i]));
            lemma_one_letter(a[i], b[i]);
        }
        assert(x =~= y);
    }
}

/// The same character, or the same ASCII letter once as a capital.
pub open spec fn one_letter(a: char, b: char) -> bool {
    ||| a == b
    ||| exists|k: int|
        0 <= k < 26 && #[trigger] "abcdefghijklmnopqrstuvwxyz"@[k] == a
            && "ABCDEFGHIJKLMNOPQRSTUVWXYZ"@[k] == b
    ||| exists|k: int|
        0 <= k < 26 && #[trigger] "abcdefghijklmnopqrstuvwxyz"@[k] == b
            && "ABCDEFGHIJKLMNOPQRSTUVWXYZ"@[k] == a
}

proof fn lemma_one_letter(a: char, b: char)
    ensures
        one_letter(a, b) <==> text::ascii_small(a) == text::ascii_small(b),
{
    reveal_strlit("abcdefghijklmnopqrstuvwxyz");
    reveal_strlit("ABCDEFGHIJKLMNOPQRSTUVWXYZ");
    let small = "abcdefghijklmnopqrstuvwxyz"@;
    let large = "ABCDEFGHIJKLMNOPQRSTUVWXYZ"@;
    assert(forall|k: int| 0 <= k < 26 ==> #[trigger] small[k] as u32 == 97 + k);
    assert(forall|k: int| 0 <= k < 26 ==> #[trigger] large[k] as u32 == 65 + k);
    if text::ascii_small(a) == text::ascii_small(b) && a != b {
        if 'A' <= a <= 'Z' {
            let k = a as u32 - 65;
            assert(small[k as int] == b);
        } else {
            let k = b as u32 - 65;
            assert(small[k as int] == a);
        }
    }
}

/// In lower case an ASCII letter is the small one, and every other character is as it
/// was.
pub proof fn law_lower_case(s: Seq<char>, i: int)
    requires
        0 <= i < s.len(),
    ensures
        text::ascii_lower(s).len() == s.len(),
        forall|k: int|
            0 <= k < 26 && #[trigger] "ABCDEFGHIJKLMNOPQRSTUVWXYZ"@[k] == s[i]
                ==> text::ascii_lower(s)[i] == "abcdefghijklmnopqrstuvwxyz"@[k],
        !"ABCDEFGHIJKLMNOPQRSTUVWXYZ"@.contains(s[i]) ==> text::ascii_lower(s)[i] == s[i],
{
    reveal_strlit("abcdefghijklmnopqrstuvwxyz");
    reveal_strlit("ABCDEFGHIJKLMNOPQRSTUVWXYZ");
    let small = "abcdefghijklmnopqrstuvwxyz"@;
    let large = "ABCDEFGHIJKLMNOPQRSTUVWXYZ"@;
    assert(forall|k: int| 0 <= k < 26 ==> #[trigger] small[k] as u32 == 97 + k);
    assert(forall|k: int| 0 <= k < 26 ==> #[trigger] large[k] as u32 == 65 + k);
    if 'A' <= s[i] <= 'Z' {
        let k = s[i] as u32 - 65;
        assert(large[k as int] == s[i]);
    }
}

/// Of two texts that begin alike the one comes first that ends there, or whose next
/// character is the smaller one.
pub proof fn law_alphabetical(start: Seq<char>, a: Seq<char>, b: Seq<char>)
    requires
        b.len() > 0,
        a.len() == 0 || a[0] < b[0],
    ensures
        text::precedes(start + a, start + b),
        !text::precedes(start + b, start + a),
    decreases start.len(),
{
    let x = start + a;
    let y = start + b;
    if start.len() == 0 {
        assert(x =~= a);
        assert(y =~= b);
    } else {
        let rest = start.drop_first();
        law_alphabetical(rest, a, b);
        assert(x.drop_first() =~= rest + a);
        assert(y.drop_first() =~= rest + b);
    }
}

/// A padded text is the text with as many blanks behind it as it takes to make it that
/// wide.
pub proof fn law_padding(s: Seq<char>, width: nat)
    ensures
        text::padded(s, width) == s + Seq::new(
            if s.len() < width {
                (width - s.len()) as nat
            } else {
                0
            },
            |i: int| ' ',
        ),
    decreases width,
{
    if s.len() < width {
        law_padding(s, (width - 1) as nat);
    }
    assert(text::padded(s, width) =~= s + Seq::new(
        if s.len() < width {
            (width - s.len()) as nat
        } else {
            0
        },
        |i: int| ' ',
    ));
}

/// A time is written in whole milliseconds below a second, and in seconds from there
/// on: with the thousandths behind a point, but for zeros at their end.
pub proof fn law_duration(millis: u64)
    ensures
        0 < millis < 1000 ==> text::duration_text(millis) == text::decimal(millis as nat) + "ms"@,
        millis >= 1000 ==> exists|fraction: Seq<char>, zeros: Seq<char>|
            {
                &&& text::duration_text(millis) == #[trigger] (text::decimal(
                    (millis / 1000) as nat,
                ) + fraction + "s"@)
                &&& #[trigger] (fraction + zeros) == seq!['.'] + text::decimal(
                    (1000 + millis % 1000) as nat,
                ).skip(1) || (fraction.len() == 0 && millis % 1000 == 0)
                &&& zeros.len() <= 2
                &&& forall|i: int| 0 <= i < zeros.len() ==> #[trigger] zeros[i] == '0'
                &&& fraction.len() > 0 ==> fraction.last() != '0'
            },
{
    let m = millis as int % 1000;
    let fraction = text::thousandths(m);
    if millis >= 1000 {
        let d = text::decimal((1000 + m) as nat);
        let all = seq!['.', text::digit(m / 100), text::digit(m / 10 % 10), text::digit(m % 10)];
        assert(d.skip(1) =~= all.skip(1)) by {
            reveal_with_fuel(text::decimal, 5);
            let a = (1000 + m) as nat;
            assert(a / 10 == 100 + m / 10);
            assert(a / 10 / 10 == 10 + m / 100);
            assert(a / 10 / 10 / 10 == 1);
            assert(a % 10 == m % 10);
            assert(a / 10 % 10 == m / 10 % 10);
            assert(a / 10 / 10 % 10 == m / 100);
        }
        assert(seq!['.'] + d.skip(1) =~= all);
        let zeros: Seq<char> = if m == 0 {
            seq![]
        } else if m % 100 == 0 {
            seq!['0', '0']
        } else if m % 10 == 0 {
            seq!['0']
        } else {
            seq![]
        };
        if m != 0 {
            assert(fraction + zeros =~= all);
        }
        assert(text::duration_text(millis) == text::decimal((millis / 1000) as nat) + fraction
            + "s"@);
        let shown = fraction + zeros;
        assert(m == 0 || shown == all);
    }
}

} // verus!
