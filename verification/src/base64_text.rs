//! Base64 text with the standard alphabet.
//!
//! What the encoding is stands here as a specification; the `base64` crate does the work.

use base64::Engine;
use vstd::prelude::*;

use crate::text::Text;

verus! {

/// The character of a six-bit value.
pub open spec fn sextet_char(v: int) -> char {
    if v < 26 {
        ('A' as int + v) as char
    } else if v < 52 {
        ('a' as int + (v - 26)) as char
    } else if v < 62 {
        ('0' as int + (v - 52)) as char
    } else if v == 62 {
        '+'
    } else {
        '/'
    }
}

/// The text of some bytes: four characters for every three bytes, the last group filled up
/// with `=`.
pub open spec fn b64(b: Seq<u8>) -> Text
    decreases b.len(),
{
    let b0 = b[0] as int;
    let b1 = b[1] as int;
    let b2 = b[2] as int;
    if b.len() == 0 {
        Seq::empty()
    } else if b.len() == 1 {
        seq![sextet_char(b0 / 4), sextet_char(b0 % 4 * 16), '=', '=']
    } else if b.len() == 2 {
        seq![sextet_char(b0 / 4), sextet_char(b0 % 4 * 16 + b1 / 16), sextet_char(b1 % 16 * 4), '=']
    } else {
        seq![
            sextet_char(b0 / 4),
            sextet_char(b0 % 4 * 16 + b1 / 16),
            sextet_char(b1 % 16 * 4 + b2 / 64),
            sextet_char(b2 % 64),
        ] + b64(b.skip(3))
    }
}

/// The text of some bytes without the `=` at its end.
pub open spec fn b64_bare(b: Seq<u8>) -> Text {
    b64(b).take((4 * b.len() as int + 2) / 3)
}

/// Distinct six-bit values have distinct characters, and none has `=`.
proof fn lemma_sextet(v: int, w: int)
    requires
        0 <= v < 64,
        0 <= w < 64,
    ensures
        sextet_char(v) == sextet_char(w) ==> v == w,
        sextet_char(v) != '=',
{
}

/// The encoding has four characters for every three bytes begun.
pub proof fn lemma_b64_len(b: Seq<u8>)
    ensures
        b64(b).len() == (b.len() + 2) / 3 * 4,
    decreases b.len(),
{
    if b.len() >= 3 {
        lemma_b64_len(b.skip(3));
    }
}

/// Whole groups encode on their own: what comes after them is encoded after them.
pub proof fn lemma_b64_concat(a: Seq<u8>, b: Seq<u8>)
    requires
        a.len() % 3 == 0,
    ensures
        b64(a + b) == b64(a) + b64(b),
    decreases a.len(),
{
    if a.len() == 0 {
        assert(a + b =~= b);
        assert(b64(a) + b64(b) =~= b64(b));
    } else {
        lemma_b64_concat(a.skip(3), b);
        assert((a + b).skip(3) =~= a.skip(3) + b);
        assert(b64(a + b) =~= b64(a) + b64(b));
    }
}

/// Whole groups need no `=`.
pub proof fn lemma_b64_bare(b: Seq<u8>)
    requires
        b.len() % 3 == 0,
    ensures
        b64_bare(b) == b64(b),
{
    lemma_b64_len(b);
    assert(b64(b).take(b64(b).len() as int) =~= b64(b));
}

/// Two byte strings with the same text are the same.
pub proof fn lemma_b64_injective(a: Seq<u8>, b: Seq<u8>)
    requires
        b64(a) == b64(b),
    ensures
        a == b,
    decreases a.len(),
{
    lemma_b64_len(a);
    lemma_b64_len(b);
    if a.len() > 0 {
        assert(b.len() > 0);
        let x = b64(a);
        let y = b64(b);
        let (a0, a1, a2) = (a[0] as int, a[1] as int, a[2] as int);
        let (b0, b1, b2) = (b[0] as int, b[1] as int, b[2] as int);
        assert(x[0] == sextet_char(a0 / 4) && y[0] == sextet_char(b0 / 4));
        lemma_sextet(a0 / 4, b0 / 4);
        assert(a0 / 4 == b0 / 4);
        lemma_sextet(a1 % 16 * 4, 0);
        lemma_sextet(b1 % 16 * 4, 0);
        lemma_sextet(a2 % 64, b2 % 64);
        lemma_sextet(b2 % 64, 0);
        lemma_sextet(a1 % 16 * 4 + a2 / 64, 0);
        lemma_sextet(b1 % 16 * 4 + b2 / 64, 0);
        if a.len() == 1 {
            assert(x[2] == '=');
            assert(b.len() == 1);
            lemma_sextet(a0 % 4 * 16, b0 % 4 * 16);
            assert(x[1] == y[1]);
            assert(a =~= b);
        } else if a.len() == 2 {
            assert(x[3] == '=' && x[2] != '=');
            assert(b.len() == 2);
            lemma_sextet(a0 % 4 * 16 + a1 / 16, b0 % 4 * 16 + b1 / 16);
            lemma_sextet(a1 % 16 * 4, b1 % 16 * 4);
            assert(x[1] == y[1] && x[2] == y[2]);
            assert(a =~= b);
        } else {
            assert(x[3] == sextet_char(a2 % 64));
            assert(b.len() >= 3);
            lemma_sextet(a0 % 4 * 16 + a1 / 16, b0 % 4 * 16 + b1 / 16);
            lemma_sextet(a1 % 16 * 4 + a2 / 64, b1 % 16 * 4 + b2 / 64);
            assert(x[1] == y[1] && x[2] == y[2] && x[3] == y[3]);
            assert(b64(a.skip(3)) =~= x.skip(4));
            assert(b64(b.skip(3)) =~= y.skip(4));
            lemma_b64_injective(a.skip(3), b.skip(3));
            assert(a =~= seq![a[0], a[1], a[2]] + a.skip(3));
            assert(b =~= seq![b[0], b[1], b[2]] + b.skip(3));
        }
    }
}

/// `Engine::encode` of `base64::engine::general_purpose::STANDARD`: the text of the bytes. It
/// panics only where the text is longer than a string can be.
#[verifier::external_body]
fn standard_encode(bytes: &Vec<u8>) -> (r: String)
    requires
        (bytes@.len() + 2) / 3 * 4 <= isize::MAX,
    ensures
        r@ == b64(bytes@),
{
    base64::engine::general_purpose::STANDARD.encode(bytes)
}

/// `Engine::encode` of `base64::engine::general_purpose::STANDARD_NO_PAD`: the text of the
/// bytes without the `=` at its end.
#[verifier::external_body]
fn standard_no_pad_encode(bytes: &Vec<u8>) -> (r: String)
    requires
        (bytes@.len() + 2) / 3 * 4 <= isize::MAX,
    ensures
        r@ == b64_bare(bytes@),
{
    base64::engine::general_purpose::STANDARD_NO_PAD.encode(bytes)
}

/// `Engine::decode` of `base64::engine::general_purpose::STANDARD`, which takes canonical
/// padding and no stray bits: it accepts a text if and only if that text is the encoding of
/// some bytes, and returns such bytes.
#[verifier::external_body]
fn standard_decode(text: &str) -> (r: Option<Vec<u8>>)
    ensures
        r matches Some(b) ==> b64(b@) == text@,
        r is None ==> forall|b: Seq<u8>| #[trigger] b64(b) != text@,
{
    base64::engine::general_purpose::STANDARD.decode(text).ok()
}

/// The text of some bytes.
pub fn encode(bytes: &Vec<u8>) -> (r: String)
    requires
        (bytes@.len() + 2) / 3 * 4 <= isize::MAX,
    ensures
        r@ == b64(bytes@),
{
    standard_encode(bytes)
}

/// The text of whole groups of three bytes.
pub fn encode_groups(bytes: &Vec<u8>) -> (r: String)
    requires
        (bytes@.len() + 2) / 3 * 4 <= isize::MAX,
        bytes@.len() % 3 == 0,
    ensures
        r@ == b64(bytes@),
{
    proof {
        lemma_b64_bare(bytes@);
    }
    standard_no_pad_encode(bytes)
}

/// The bytes that a text encodes, where there are any.
pub open spec fn b64_decoded(t: Text) -> Option<Seq<u8>> {
    if exists|b: Seq<u8>| #[trigger] b64(b) == t {
        Some(choose|b: Seq<u8>| #[trigger] b64(b) == t)
    } else {
        None
    }
}

/// What was encoded decodes to the same bytes, and what decodes was their encoding.
pub proof fn lemma_b64_round_trip(b: Seq<u8>, t: Text)
    ensures
        b64_decoded(b64(b)) == Some(b),
        b64_decoded(t) == Some(b) <==> b64(b) == t,
{
    let x = choose|x: Seq<u8>| #[trigger] b64(x) == b64(b);
    lemma_b64_injective(x, b);
    if b64(b) == t {
        let y = choose|y: Seq<u8>| #[trigger] b64(y) == t;
        lemma_b64_injective(y, b);
    }
}

/// The bytes that a text encodes.
pub fn decode(text: &str) -> (r: Option<Vec<u8>>)
    ensures
        r is Some <==> b64_decoded(text@) is Some,
        r matches Some(v) ==> b64_decoded(text@) == Some(v@),
{
    let r = standard_decode(text);
    proof {
        if r is Some {
            lemma_b64_round_trip(r->0@, text@);
        }
    }
    r
}

/// The code point of the character of a six-bit value.
pub open spec fn sextet_code(v: int) -> int {
    if v <= 25 {
        65 + v
    } else if v <= 51 {
        71 + v
    } else if v <= 61 {
        v - 4
    } else if v == 62 {
        43
    } else {
        47
    }
}

/// Three bytes make a number of 24 bits, which is written in four characters of six bits each;
/// what follows is written in the same way. One or two bytes at the end are filled up with zero
/// bits and with `=`.
pub proof fn law_base64_by_groups(a: u8, b: u8, c: u8, rest: Seq<u8>)
    ensures
        ({
            let n: int = a * 65536 + b * 256 + c;
            let t = b64(seq![a, b, c] + rest);
            &&& t.len() == 4 + b64(rest).len()
            &&& t[0] as int == sextet_code(n / 262144)
            &&& t[1] as int == sextet_code((n / 4096) % 64)
            &&& t[2] as int == sextet_code((n / 64) % 64)
            &&& t[3] as int == sextet_code(n % 64)
            &&& t.skip(4) == b64(rest)
        }),
        ({
            let n: int = a * 65536 + b * 256;
            let t = b64(seq![a, b]);
            &&& t.len() == 4
            &&& t[0] as int == sextet_code(n / 262144)
            &&& t[1] as int == sextet_code((n / 4096) % 64)
            &&& t[2] as int == sextet_code((n / 64) % 64)
            &&& t[3] == '='
        }),
        ({
            let n: int = a * 65536;
            let t = b64(seq![a]);
            &&& t.len() == 4
            &&& t[0] as int == sextet_code(n / 262144)
            &&& t[1] as int == sextet_code((n / 4096) % 64)
            &&& t[2] == '='
            &&& t[3] == '='
        }),
        b64(Seq::empty()).len() == 0,
{
    let x = seq![a, b, c] + rest;
    lemma_sextets(a as int, b as int, c as int);
    lemma_sextets(a as int, b as int, 0);
    lemma_sextets(a as int, 0, 0);
    assert(x.skip(3) =~= rest);
    assert(x[0] == a && x[1] == b && x[2] == c);
    let four = seq![
        sextet_char(a as int / 4),
        sextet_char(a as int % 4 * 16 + b as int / 16),
        sextet_char(b as int % 16 * 4 + c as int / 64),
        sextet_char(c as int % 64),
    ];
    assert(b64(x) == four + b64(rest));
    assert(b64(x).skip(4) =~= b64(rest));
    assert(b64(x)[0] == four[0] && b64(x)[1] == four[1] && b64(x)[2] == four[2] && b64(x)[3]
        == four[3]);
    let y = seq![a, b];
    assert(y[0] == a && y[1] == b);
    assert(b64(y) == seq![
        sextet_char(a as int / 4),
        sextet_char(a as int % 4 * 16 + b as int / 16),
        sextet_char(b as int % 16 * 4),
        '=',
    ]);
    let z = seq![a];
    assert(z[0] == a);
    assert(b64(z) == seq![sextet_char(a as int / 4), sextet_char(a as int % 4 * 16), '=', '=']);
}

proof fn lemma_sextets(a: int, b: int, c: int)
    requires
        0 <= a < 256,
        0 <= b < 256,
        0 <= c < 256,
    ensures
        ({
            let n = a * 65536 + b * 256 + c;
            &&& sextet_char(a / 4) as int == sextet_code(n / 262144)
            &&& sextet_char(a % 4 * 16 + b / 16) as int == sextet_code((n / 4096) % 64)
            &&& sextet_char(b % 16 * 4 + c / 64) as int == sextet_code((n / 64) % 64)
            &&& sextet_char(c % 64) as int == sextet_code(n % 64)
        }),
{
    let n = a * 65536 + b * 256 + c;
    lemma_places(n, a / 4, a % 4 * 16 + b / 16, b % 16 * 4 + c / 64, c % 64);
    lemma_sextet_code(a / 4);
    lemma_sextet_code(a % 4 * 16 + b / 16);
    lemma_sextet_code(b % 16 * 4 + c / 64);
    lemma_sextet_code(c % 64);
}

proof fn lemma_places(n: int, p: int, q: int, r: int, s: int)
    requires
        0 <= p < 64,
        0 <= q < 64,
        0 <= r < 64,
        0 <= s < 64,
        n == p * 262144 + q * 4096 + r * 64 + s,
    ensures
        n / 262144 == p,
        (n / 4096) % 64 == q,
        (n / 64) % 64 == r,
        n % 64 == s,
{
    assert(n / 64 == p * 4096 + q * 64 + r);
    assert(n / 4096 == p * 64 + q);
}

proof fn lemma_sextet_code(v: int)
    requires
        0 <= v < 64,
    ensures
        sextet_char(v) as int == sextet_code(v),
{
}

} // verus!
