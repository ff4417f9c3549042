//! Minimal base64 encoder. AWS expects `user_data` to be base64-encoded.

use vstd::prelude::*;

verus! {

/// The character of the alphabet for a number below 64.
pub open spec fn digit64(v: int) -> char {
    if v < 26 {
        ((65 + v) as u32) as char
    } else if v < 52 {
        ((71 + v) as u32) as char
    } else if v < 62 {
        ((v - 4) as u32) as char
    } else if v == 62 {
        '+'
    } else {
        '/'
    }
}

/// The number that a character of the alphabet stands for.
pub open spec fn value64(c: char) -> int {
    if 'A' <= c <= 'Z' {
        c as u32 - 65
    } else if 'a' <= c <= 'z' {
        c as u32 - 71
    } else if '0' <= c <= '9' {
        c as u32 + 4
    } else if c == '+' {
        62
    } else {
        63
    }
}

/// The base64 text of some bytes: four characters for every three of them, the
/// last group filled up with equals signs.
pub open spec fn base64_text(s: Seq<u8>) -> Seq<char>
    decreases s.len(),
{
    if s.len() == 0 {
        seq![]
    } else {
        let b0 = s[0] as int;
        if s.len() == 1 {
            seq![digit64(b0 / 4), digit64(b0 % 4 * 16), '=', '=']
        } else {
            let b1 = s[1] as int;
            if s.len() == 2 {
                seq![digit64(b0 / 4), digit64(b0 % 4 * 16 + b1 / 16), digit64(b1 % 16 * 4), '=']
            } else {
                let b2 = s[2] as int;
                seq![
                    digit64(b0 / 4),
                    digit64(b0 % 4 * 16 + b1 / 16),
                    digit64(b1 % 16 * 4 + b2 / 64),
                    digit64(b2 % 64),
                ] + base64_text(s.skip(3))
            }
        }
    }
}

/// The bytes that a base64 text stands for.
pub open spec fn base64_bytes(t: Seq<char>) -> Seq<u8>
    decreases t.len(),
{
    if t.len() < 4 {
        seq![]
    } else {
        let v0 = value64(t[0]);
        let v1 = value64(t[1]);
        let v2 = value64(t[2]);
        let b0 = (v0 * 4 + v1 / 16) as u8;
        let b1 = (v1 % 16 * 16 + v2 / 4) as u8;
        let b2 = (v2 % 4 * 64 + value64(t[3])) as u8;
        if t[2] == '=' {
            seq![b0]
        } else if t[3] == '=' {
            seq![b0, b1]
        } else {
            seq![b0, b1, b2] + base64_bytes(t.skip(4))
        }
    }
}

fn digit(v: u8) -> (r: char)
    requires
        v < 64,
    ensures
        r == digit64(v as int),
{
    if v < 26 {
        (65 + v) as char
    } else if v < 52 {
        (71 + v) as char
    } else if v < 62 {
        (v - 4) as char
    } else if v == 62 {
        '+'
    } else {
        '/'
    }
}

/// Minimal base64 encoder.
pub fn base64_encode(input: &[u8]) -> (r: String)
    ensures
        r@ == base64_text(input@),
{
    let total: usize = input.len();
    let mut out = String::new();
    let mut i: usize = 0;
    assert(input@.skip(0) =~= input@);
    while total - i >= 3
        invariant
            i <= total,
            total == input@.len(),
            out@ + base64_text(input@.skip(i as int)) == base64_text(input@),
        decreases total - i,
    {
        let b0: u8 = input[i];
        let b1: u8 = input[i + 1];
        let b2: u8 = input[i + 2];
        let ghost before = out@;
        out.push(digit(b0 / 4));
        out.push(digit(b0 % 4 * 16 + b1 / 16));
        out.push(digit(b1 % 16 * 4 + b2 / 64));
        out.push(digit(b2 % 64));
        proof {
            let rest = input@.skip(i as int);
            assert(rest.skip(3) =~= input@.skip(i + 3));
            assert(out@ + base64_text(rest.skip(3)) =~= before + base64_text(rest));
        }
        i = i + 3;
    }
    let ghost rest = input@.skip(i as int);
    let ghost before = out@;
    if total - i == 1 {
        let b0: u8 = input[i];
        out.push(digit(b0 / 4));
        out.push(digit(b0 % 4 * 16));
        out.push('=');
        out.push('=');
        assert(rest[0] == b0);
    } else if total - i == 2 {
        let b0: u8 = input[i];
        let b1: u8 = input[i + 1];
        out.push(digit(b0 / 4));
        out.push(digit(b0 % 4 * 16 + b1 / 16));
        out.push(digit(b1 % 16 * 4));
        out.push('=');
        assert(rest[0] == b0 && rest[1] == b1);
    }
    assert(out@ =~= before + base64_text(rest));
    out
}

proof fn lemma_digit64(v: int)
    requires
        0 <= v < 64,
    ensures
        value64(digit64(v)) == v,
        digit64(v) != '=',
{
}

/// Decoding what was encoded gives back the bytes.
pub proof fn law_base64_reads_back(s: Seq<u8>)
    ensures
        base64_bytes(base64_text(s)) == s,
    decreases s.len(),
{
    let t = base64_text(s);
    if s.len() == 0 {
        assert(base64_bytes(t) =~= s);
    } else {
        let b0 = s[0] as int;
        lemma_digit64(b0 / 4);
        if s.len() == 1 {
            lemma_digit64(b0 % 4 * 16);
            assert(base64_bytes(t) =~= s);
        } else {
            let b1 = s[1] as int;
            lemma_digit64(b0 % 4 * 16 + b1 / 16);
            if s.len() == 2 {
                lemma_digit64(b1 % 16 * 4);
                assert(base64_bytes(t) =~= s);
            } else {
                let b2 = s[2] as int;
                lemma_digit64(b1 % 16 * 4 + b2 / 64);
                lemma_digit64(b2 % 64);
                law_base64_reads_back(s.skip(3));
                assert(t.skip(4) =~= base64_text(s.skip(3)));
                assert(base64_bytes(t) =~= s);
            }
        }
    }
}

/// The text has four characters for every three bytes, a part of three counting
/// as three.
pub proof fn law_base64_length(s: Seq<u8>)
    ensures
        base64_text(s).len() == (s.len() + 2) / 3 * 4,
    decreases s.len(),
{
    if s.len() >= 3 {
        law_base64_length(s.skip(3));
    }
}

/// The digits are those of the standard alphabet, in its order.
pub proof fn law_base64_alphabet(v: int)
    requires
        0 <= v < 64,
    ensures
        digit64(v) == "ABCDEFGHIJKLMNOPQRSTUVWXYZabcdefghijklmnopqrstuvwxyz0123456789+/"@[v],
{
    reveal_strlit("ABCDEFGHIJKLMNOPQRSTUVWXYZabcdefghijklmnopqrstuvwxyz0123456789+/");
    let all = "ABCDEFGHIJKLMNOPQRSTUVWXYZabcdefghijklmnopqrstuvwxyz0123456789+/"@;
    assert(forall|k: int| 0 <= k < 26 ==> #[trigger] all[k] as u32 == 65 + k);
    assert(forall|k: int| 26 <= k < 52 ==> #[trigger] all[k] as u32 == 97 + k - 26);
    assert(forall|k: int| 52 <= k < 62 ==> #[trigger] all[k] as u32 == 48 + k - 52);
    assert(all[62] == '+' && all[63] == '/');
}

proof fn lemma_bits(a: int, b: int, c: int)
    requires
        0 <= a < 256,
        0 <= b < 256,
        0 <= c < 256,
    ensures
        ((a * 256 + b) * 256 + c) / 262144 == a / 4,
        ((a * 256 + b) * 256 + c) / 4096 % 64 == a % 4 * 16 + b / 16,
        ((a * 256 + b) * 256 + c) / 64 % 64 == b % 16 * 4 + c / 64,
        ((a * 256 + b) * 256 + c) % 64 == c % 64,
{
    let bits = (a * 256 + b) * 256 + c;
    let x = a % 4 * 16 + b / 16;
    let y = b % 16 * 4 + c / 64;
    let z = c % 64;
    let w = a / 4;
    assert(0 <= x < 64 && 0 <= y < 64 && 0 <= z < 64);
    assert(bits == w * 262144 + x * 4096 + y * 64 + z);
    assert(bits / 64 == w * 4096 + x * 64 + y);
    assert(bits / 4096 == w * 64 + x);
    assert(bits / 262144 == w);
}

/// Three bytes make four digits of six bits each; one or two at the end are filled up
/// with zero bits, and with equals signs for the digits that they do not reach.
pub proof fn law_base64_groups(s: Seq<u8>)
    requires
        s.len() > 0,
    ensures
        ({
            let a = s[0] as int;
            let b = if s.len() > 1 {
                s[1] as int
            } else {
                0
            };
            let c = if s.len() > 2 {
                s[2] as int
            } else {
                0
            };
            let bits = (a * 256 + b) * 256 + c;
            let t = base64_text(s);
            &&& t.len() >= 4
            &&& t[0] == digit64(bits / 262144)
            &&& t[1] == digit64(bits / 4096 % 64)
            &&& t[2] == (if s.len() > 1 {
                digit64(bits / 64 % 64)
            } else {
                '='
            })
            &&& t[3] == (if s.len() > 2 {
                digit64(bits % 64)
            } else {
                '='
            })
            &&& t.skip(4) == (if s.len() > 3 {
                base64_text(s.skip(3))
            } else {
                Seq::empty()
            })
        }),
{
    let a = s[0] as int;
    let b = if s.len() > 1 {
        s[1] as int
    } else {
        0
    };
    let c = if s.len() > 2 {
        s[2] as int
    } else {
        0
    };
    let bits = (a * 256 + b) * 256 + c;
    lemma_bits(a, b, c);
    let t = base64_text(s);
    if s.len() >= 3 {
        assert(t.skip(4) =~= base64_text(s.skip(3)));
        if s.len() == 3 {
            assert(s.skip(3) =~= Seq::<u8>::empty());
            assert(t.skip(4) =~= Seq::<char>::empty());
        }
    } else {
        assert(t.skip(4) =~= Seq::<char>::empty());
    }
}

} // verus!
